use vstd::prelude::*;
use route_recognizer::Router as PatternMatcher;
use crate::matcher::{matched, matcher_values, new_matcher, matcher_add, matcher_recognize, static_pattern, after_static_add};
use crate::params::{Pairs, ParamMap, RouteMap, lookup, insert_pair, lemma_insert_then_lookup};
use crate::path::{toggled, toggle_trailing_slash, views_of, routable, is_routable, no_nul};

verus! {

/// The request methods that routes can be registered for.
#[derive(PartialEq, Eq, Structural, Clone, Copy, Debug)]
pub enum Method {
    Options,
    Get,
    Post,
    Put,
    Delete,
    Head,
    Trace,
    Connect,
    Patch,
}

/// The number of methods, and so the length of a pattern's table of routes.
pub const METHOD_COUNT: usize = 9;

/// The slot of a method in a pattern's table of routes.
pub open spec fn method_index(m: Method) -> int {
    match m {
        Method::Options => 0,
        Method::Get => 1,
        Method::Post => 2,
        Method::Put => 3,
        Method::Delete => 4,
        Method::Head => 5,
        Method::Trace => 6,
        Method::Connect => 7,
        Method::Patch => 8,
    }
}

impl Method {
    /// The slot of this method in a pattern's table of routes.
    pub fn index(&self) -> (r: usize)
        ensures
            r == method_index(*self),
            r < METHOD_COUNT,
    {
        match self {
            Method::Options => 0,
            Method::Get => 1,
            Method::Post => 2,
            Method::Put => 3,
            Method::Delete => 4,
            Method::Head => 5,
            Method::Trace => 6,
            Method::Connect => 7,
            Method::Patch => 8,
        }
    }
}

/// The ways in which routing a request can fail, and the signal by which a handler passes.
#[derive(PartialEq, Eq, Structural, Clone, Copy, Debug)]
pub enum RouterError {
    /// A pattern matches the path but has no route for the method.
    MethodNotAllowed,
    /// No pattern matches the path.
    NotFound,
    /// The path with its trailing slash toggled has a route.
    TrailingSlash,
    /// A handler does not answer for this route id; the next one is asked.
    NextMiddleware,
    /// A handler found the request invalid.
    BadRequest,
}

/// The sentence that describes each error.
pub open spec fn description_of(e: RouterError) -> Seq<char> {
    match e {
        RouterError::MethodNotAllowed => "Method Not Allowed"@,
        RouterError::NotFound => "No matching route found."@,
        RouterError::TrailingSlash => "The request had a trailing slash."@,
        RouterError::NextMiddleware => "This is middleware not support this request"@,
        RouterError::BadRequest => "This is not valid request"@,
    }
}

impl RouterError {
    /// A sentence that describes the error.
    pub fn description(&self) -> (r: &'static str)
        ensures
            r@ == description_of(*self),
    {
        match self {
            RouterError::MethodNotAllowed => "Method Not Allowed",
            RouterError::NotFound => "No matching route found.",
            RouterError::TrailingSlash => "The request had a trailing slash.",
            RouterError::NextMiddleware => "This is middleware not support this request",
            RouterError::BadRequest => "This is not valid request",
        }
    }
}

/// The routes of one pattern: one optional route id per method slot.
pub type RoutesView = Seq<Option<Seq<char>>>;

/// A pattern with its routes.
pub type EntryView = (Seq<char>, RoutesView);

pub open spec fn routes_view(v: Seq<Option<String>>) -> RoutesView {
    v.map_values(|o: Option<String>| opt_view(o))
}

pub open spec fn opt_view(o: Option<String>) -> Option<Seq<char>> {
    match o {
        Some(s) => Some(s@),
        None => None,
    }
}

pub open spec fn entries_view(v: Seq<(String, Vec<Option<String>>)>) -> Seq<EntryView> {
    v.map_values(|e: (String, Vec<Option<String>>)| (e.0@, routes_view(e.1@)))
}

/// The position of the last entry for pattern `p`, or -1.
pub open spec fn pattern_index(es: Seq<EntryView>, p: Seq<char>) -> int
    decreases es.len(),
{
    if es.len() == 0 {
        -1
    } else if es.last().0 == p {
        es.len() - 1
    } else {
        pattern_index(es.drop_last(), p)
    }
}

pub proof fn lemma_pattern_index(es: Seq<EntryView>, p: Seq<char>)
    ensures
        -1 <= pattern_index(es, p) < es.len(),
        pattern_index(es, p) >= 0 ==> es[pattern_index(es, p)].0 == p,
    decreases es.len(),
{
    if es.len() > 0 {
        lemma_pattern_index(es.drop_last(), p);
    }
}

/// The routes of a pattern that has none yet.
pub open spec fn no_routes() -> RoutesView {
    Seq::new(METHOD_COUNT as nat, |i: int| None)
}

/// The entries after `id` is registered for method `m` at pattern `p`: the routes of an
/// existing entry for exactly `p` gain (or replace) the method's route, otherwise a new entry
/// is added last.
pub open spec fn with_route(es: Seq<EntryView>, p: Seq<char>, m: Method, id: Seq<char>) -> Seq<
    EntryView,
> {
    let i = pattern_index(es, p);
    if i >= 0 {
        es.update(i, (p, es[i].1.update(method_index(m), Some(id))))
    } else {
        es.push((p, no_routes().update(method_index(m), Some(id))))
    }
}

/// Where registering pattern `p` puts its routes: the existing entry for `p`, or a new last
/// one.
pub open spec fn registered_slot(es: Seq<EntryView>, p: Seq<char>) -> int {
    if pattern_index(es, p) >= 0 {
        pattern_index(es, p)
    } else {
        es.len() as int
    }
}

/// Every pattern has one route slot per method.
pub open spec fn slots_complete(es: Seq<EntryView>) -> bool {
    forall|i: int| 0 <= i < es.len() ==> (#[trigger] es[i]).1.len() == METHOD_COUNT
}

/// Whether `id` may be bound to `pattern`: it is unbound, or bound to that same pattern.
pub open spec fn can_bind(ids: Pairs, id: Seq<char>, pattern: Seq<char>) -> bool {
    match lookup(ids, id) {
        Some(p) => p == pattern,
        None => true,
    }
}

/// A wildcard match's route, or `e` where the wildcard matcher found nothing.
pub open spec fn wildcard_or(ws: Seq<Seq<char>>, w: Option<(usize, Pairs)>, e: RouterError) -> Result<
    (Seq<char>, Pairs),
    RouterError,
> {
    match w {
        Some((i, p)) => Ok((ws[i as int], p)),
        None => Err(e),
    }
}

/// Resolution from what the two matchers found: `found` from the method-specific one, `wild`
/// from the any-method one. A pattern with a route for `m` wins; a pattern without one gives
/// way to the wildcard, else `MethodNotAllowed`; no pattern at all gives way to the wildcard,
/// else `NotFound`.
pub open spec fn resolution(
    es: Seq<EntryView>,
    ws: Seq<Seq<char>>,
    found: Option<(usize, Pairs)>,
    wild: Option<(usize, Pairs)>,
    m: Method,
) -> Result<(Seq<char>, Pairs), RouterError> {
    match found {
        Some((i, p)) => match es[i as int].1[method_index(m)] {
            Some(id) => Ok((id, p)),
            None => wildcard_or(ws, wild, RouterError::MethodNotAllowed),
        },
        None => wildcard_or(ws, wild, RouterError::NotFound),
    }
}

pub open spec fn has_route(rs: RoutesView, m: Method) -> bool {
    rs[method_index(m)] is Some
}

pub open spec fn if_routed(rs: RoutesView, m: Method) -> Seq<Method> {
    if has_route(rs, m) {
        seq![m]
    } else {
        Seq::empty()
    }
}

/// The methods to announce for a pattern's routes: those of GET, POST, PUT, DELETE, HEAD and
/// PATCH that have a route, in that order, then HEAD where GET has a route and HEAD has none.
pub open spec fn allowed_methods(rs: RoutesView) -> Seq<Method> {
    let base = if_routed(rs, Method::Get) + if_routed(rs, Method::Post) + if_routed(
        rs,
        Method::Put,
    ) + if_routed(rs, Method::Delete) + if_routed(rs, Method::Head) + if_routed(
        rs,
        Method::Patch,
    );
    if has_route(rs, Method::Get) && !has_route(rs, Method::Head) {
        base.push(Method::Head)
    } else {
        base
    }
}

/// The allowed methods at a path, from what the method-specific matcher found there.
pub open spec fn allowed_at(es: Seq<EntryView>, found: Option<(usize, Pairs)>) -> Seq<Method> {
    match found {
        Some((i, _)) => allowed_methods(es[i as int].1),
        None => Seq::empty(),
    }
}

/// A resolved route: its id and the parameters bound by its pattern.
pub struct Match {
    pub route_id: String,
    pub params: ParamMap,
}

/// A resolution result as values: the route id with its parameters, or the error.
pub open spec fn match_view(r: Result<Match, RouterError>) -> Result<(Seq<char>, Pairs), RouterError> {
    match r {
        Ok(m) => Ok((m.route_id@, m.params@)),
        Err(e) => Err(e),
    }
}

/// What the router decides for a request.
pub enum Resolution {
    /// Dispatch `found` to the handlers, with the request's method taken as `method`.
    Found { found: Match, method: Method },
    /// Redirect permanently to the path with its trailing slash toggled.
    Redirect { path: String },
    /// Answer an OPTIONS request with these methods.
    Allow { methods: Vec<Method> },
    /// Fail with this error.
    Failed { error: RouterError },
}

/// A `Resolution` as values: route id, parameters and method; redirect path; allowed
/// methods; or the error.
pub enum ResolutionView {
    Found(Seq<char>, Pairs, Method),
    Redirect(Seq<char>),
    Allow(Seq<Method>),
    Failed(RouterError),
}

impl Resolution {
    pub open spec fn view(&self) -> ResolutionView {
        match self {
            Resolution::Found { found, method } => ResolutionView::Found(
                found.route_id@,
                found.params@,
                *method,
            ),
            Resolution::Redirect { path } => ResolutionView::Redirect(path@),
            Resolution::Allow { methods } => ResolutionView::Allow(methods@),
            Resolution::Failed { error } => ResolutionView::Failed(*error),
        }
    }
}

/// One pass of the resolver for method `m` from the outcomes `direct` at the path and
/// `toggled_result` at the path with its trailing slash toggled: a route is dispatched, and
/// where the path is not found at all but the toggled path resolves, the answer is a redirect
/// to it. `MethodNotAllowed` is never redirected. `Err` with the failure where the pass
/// decided nothing.
pub open spec fn attempt_from(
    direct: Result<(Seq<char>, Pairs), RouterError>,
    path: Seq<char>,
    toggled_result: Result<(Seq<char>, Pairs), RouterError>,
    m: Method,
) -> Result<ResolutionView, RouterError> {
    match direct {
        Ok((id, p)) => Ok(ResolutionView::Found(id, p, m)),
        Err(RouterError::MethodNotAllowed) => Err(RouterError::MethodNotAllowed),
        Err(e) => if path.len() > 0 && toggled_result is Ok {
            Ok(ResolutionView::Redirect(toggled(path)))
        } else {
            Err(e)
        },
    }
}

/// A router: patterns bound per method, patterns bound for any method, the registry of
/// route ids, and the chain of handlers in the order they were linked.
pub struct Router<H> {
    matcher: PatternMatcher<usize>,
    entries: Vec<(String, Vec<Option<String>>)>,
    wildcard: PatternMatcher<usize>,
    wildcard_ids: Vec<String>,
    route_ids: RouteMap,
    handlers: Vec<H>,
}

impl<H> Router<H> {
    pub closed spec fn patterns(&self) -> Seq<EntryView> {
        entries_view(self.entries@)
    }

    pub closed spec fn wildcard_routes(&self) -> Seq<Seq<char>> {
        views_of(self.wildcard_ids@)
    }

    pub closed spec fn route_ids(&self) -> Pairs {
        self.route_ids@
    }

    pub closed spec fn handler_seq(&self) -> Seq<H> {
        self.handlers@
    }

    pub closed spec fn specific_matcher(&self) -> PatternMatcher<usize> {
        self.matcher
    }

    pub closed spec fn any_matcher(&self) -> PatternMatcher<usize> {
        self.wildcard
    }

    pub closed spec fn wf(&self) -> bool {
        &&& forall|v: usize| #[trigger]
            matcher_values(self.matcher).contains(v) ==> v < self.entries@.len()
        &&& forall|v: usize| #[trigger]
            matcher_values(self.wildcard).contains(v) ==> v < self.wildcard_ids@.len()
        &&& forall|i: int|
            0 <= i < self.entries@.len() ==> #[trigger] self.entries@[i].1@.len() == METHOD_COUNT
        &&& self.route_ids.wf()
    }

    /// What resolving method `m` at `path` gives.
    pub open spec fn resolve_spec(&self, m: Method, path: Seq<char>) -> Result<
        (Seq<char>, Pairs),
        RouterError,
    > {
        if routable(path) {
            resolution(
                self.patterns(),
                self.wildcard_routes(),
                matched(self.specific_matcher(), path),
                matched(self.any_matcher(), path),
                m,
            )
        } else {
            Err(RouterError::NotFound)
        }
    }

    /// The methods announced at `path`; none at a path that no pattern can match.
    pub open spec fn allowed_spec(&self, path: Seq<char>) -> Seq<Method> {
        if routable(path) {
            allowed_at(self.patterns(), matched(self.specific_matcher(), path))
        } else {
            Seq::empty()
        }
    }

    pub open spec fn attempt_spec(&self, m: Method, path: Seq<char>) -> Result<ResolutionView, RouterError> {
        attempt_from(self.resolve_spec(m, path), path, self.resolve_spec(m, toggled(path)), m)
    }

    /// The full decision for a request: one pass for its method; where that decides nothing,
    /// OPTIONS lists the allowed methods, HEAD gets a pass as GET, and any other method fails
    /// as the pass did.
    pub open spec fn dispatch_spec(&self, m: Method, path: Seq<char>) -> ResolutionView {
        match self.attempt_spec(m, path) {
            Ok(r) => r,
            Err(e) => match m {
                Method::Options => ResolutionView::Allow(self.allowed_spec(path)),
                Method::Head => match self.attempt_spec(Method::Get, path) {
                    Ok(r) => r,
                    Err(e2) => ResolutionView::Failed(e2),
                },
                _ => ResolutionView::Failed(e),
            },
        }
    }

    pub fn new() -> (r: Router<H>)
        ensures
            r.wf(),
            r.patterns() == Seq::<EntryView>::empty(),
            r.wildcard_routes() == Seq::<Seq<char>>::empty(),
            r.route_ids() == Seq::<(Seq<char>, Seq<char>)>::empty(),
            r.handler_seq() == Seq::<H>::empty(),
            matcher_values(r.specific_matcher()) == Set::<usize>::empty(),
            matcher_values(r.any_matcher()) == Set::<usize>::empty(),
            forall|m: Method, path: Seq<char>| #[trigger] r.resolve_spec(m, path) == Err::<(Seq<char>, Pairs), RouterError>(RouterError::NotFound),
    {
        let r = Router {
            matcher: new_matcher(),
            entries: Vec::new(),
            wildcard: new_matcher(),
            wildcard_ids: Vec::new(),
            route_ids: RouteMap::new(),
            handlers: Vec::new(),
        };
        proof {
            assert(r.patterns() =~= Seq::<EntryView>::empty());
            assert(r.wildcard_routes() =~= Seq::<Seq<char>>::empty());
        }
        r
    }

    /// Appends `handler` to the chain.
    pub fn link(&mut self, handler: H)
        requires
            old(self).wf(),
        ensures
            final(self).wf(),
            final(self).handler_seq() == old(self).handler_seq().push(handler),
            final(self).patterns() == old(self).patterns(),
            final(self).wildcard_routes() == old(self).wildcard_routes(),
            final(self).route_ids() == old(self).route_ids(),
            final(self).specific_matcher() == old(self).specific_matcher(),
            final(self).any_matcher() == old(self).any_matcher(),
    {
        self.handlers.push(handler);
    }

    /// The handler at position `i` of the chain.
    pub fn handler(&self, i: usize) -> (r: &H)
        requires
            i < self.handler_seq().len(),
        ensures
            *r == self.handler_seq()[i as int],
    {
        &self.handlers[i]
    }

    /// The number of handlers in the chain.
    pub fn handler_count(&self) -> (r: usize)
        ensures
            r == self.handler_seq().len(),
    {
        self.handlers.len()
    }

    /// Whether `route_id` may be bound to `glob`: registering it is then allowed.
    pub fn can_bind(&self, route_id: &str, glob: &str) -> (r: bool)
        ensures
            r == can_bind(self.route_ids(), route_id@, glob@),
    {
        match self.route_ids.get(route_id) {
            Some(p) => p == glob.to_owned(),
            None => true,
        }
    }

    fn find_pattern(&self, glob: &str) -> (r: Option<usize>)
        ensures
            match r {
                Some(i) => i == pattern_index(self.patterns(), glob@),
                None => pattern_index(self.patterns(), glob@) == -1,
            },
    {
        let ghost es = self.patterns();
        let g = glob.to_owned();
        let mut j: usize = self.entries.len();
        proof {
            assert(es.subrange(0, j as int) =~= es);
        }
        while j > 0
            invariant
                j <= self.entries@.len(),
                es == self.patterns(),
                g@ == glob@,
                pattern_index(es, glob@) == pattern_index(es.subrange(0, j as int), glob@),
            decreases j,
        {
            let ghost t = es.subrange(0, j as int);
            proof {
                assert(t.last() == es[j - 1]);
                assert(t.drop_last() =~= es.subrange(0, j - 1));
            }
            if self.entries[j - 1].0 == g {
                return Some(j - 1);
            }
            j = j - 1;
        }
        None
    }

    /// Registers `route_id` for `method` at pattern `glob`. Binding an id to a second,
    /// different pattern is a configuration error, excluded here; see `can_bind`.
    pub fn route(&mut self, method: Method, glob: &str, route_id: &str)
        requires
            old(self).wf(),
            no_nul(glob@),
            can_bind(old(self).route_ids(), route_id@, glob@),
        ensures
            final(self).wf(),
            final(self).patterns() == with_route(old(self).patterns(), glob@, method, route_id@),
            final(self).route_ids() == insert_pair(old(self).route_ids(), route_id@, glob@),
            final(self).wildcard_routes() == old(self).wildcard_routes(),
            final(self).any_matcher() == old(self).any_matcher(),
            final(self).handler_seq() == old(self).handler_seq(),
            matcher_values(final(self).specific_matcher()).contains(
                registered_slot(old(self).patterns(), glob@) as usize,
            ),
            static_pattern(glob@) ==> forall|path: Seq<char>| #[trigger]
                matched(final(self).specific_matcher(), path) == after_static_add(
                    matched(old(self).specific_matcher(), path),
                    path,
                    glob@,
                    registered_slot(old(self).patterns(), glob@) as usize,
                ),
    {
        let mi = method.index();
        let ghost es = self.patterns();
        proof {
            lemma_pattern_index(es, glob@);
        }
        match self.find_pattern(glob) {
            Some(i) => {
                let old_routes = &self.entries[i].1;
                let mut routes: Vec<Option<String>> = Vec::new();
                let mut k: usize = 0;
                while k < old_routes.len()
                    invariant
                        k <= old_routes@.len(),
                        routes_view(routes@) == routes_view(old_routes@).subrange(0, k as int),
                    decreases old_routes@.len() - k,
                {
                    let slot = match &old_routes[k] {
                        Some(s) => Some(s.clone()),
                        None => None,
                    };
                    let ghost r0 = routes@;
                    routes.push(slot);
                    proof {
                        assert(routes_view(routes@) =~= routes_view(r0).push(opt_view(slot)));
                        assert(routes_view(old_routes@).subrange(0, k + 1) =~= routes_view(
                            old_routes@,
                        ).subrange(0, k as int).push(opt_view(old_routes@[k as int])));
                    }
                    k = k + 1;
                }
                proof {
                    assert(routes_view(old_routes@).subrange(0, k as int) =~= routes_view(old_routes@));
                }
                let ghost rv = routes_view(routes@);
                routes.set(mi, Some(route_id.to_owned()));
                proof {
                    assert(routes_view(routes@) =~= rv.update(mi as int, Some(route_id@)));
                }
                let ghost e0 = self.entries@;
                self.entries.set(i, (glob.to_owned(), routes));
                matcher_add(&mut self.matcher, glob, i);
                proof {
                    assert(self.patterns() =~= with_route(es, glob@, method, route_id@));
                    assert forall|x: int| 0 <= x < self.entries@.len() implies #[trigger] self.entries@[x].1@.len() == METHOD_COUNT by {
                        if x != i {
                            assert(self.entries@[x] == e0[x]);
                        }
                    }
                }
            },
            None => {
                let mut routes: Vec<Option<String>> = Vec::new();
                let mut k: usize = 0;
                while k < METHOD_COUNT
                    invariant
                        k <= METHOD_COUNT,
                        routes_view(routes@) == no_routes().subrange(0, k as int),
                    decreases METHOD_COUNT - k,
                {
                    let ghost r0 = routes@;
                    routes.push(None);
                    proof {
                        assert(routes_view(routes@) =~= routes_view(r0).push(None));
                        assert(no_routes().subrange(0, k + 1) =~= no_routes().subrange(0, k as int).push(None));
                    }
                    k = k + 1;
                }
                proof {
                    assert(no_routes().subrange(0, k as int) =~= no_routes());
                }
                let ghost rv = routes_view(routes@);
                routes.set(mi, Some(route_id.to_owned()));
                proof {
                    assert(routes_view(routes@) =~= rv.update(mi as int, Some(route_id@)));
                }
                let idx = self.entries.len();
                matcher_add(&mut self.matcher, glob, idx);
                self.entries.push((glob.to_owned(), routes));
                proof {
                    assert(self.patterns() =~= with_route(es, glob@, method, route_id@));
                }
            },
        }
        self.route_ids.insert(route_id.to_owned(), glob.to_owned());
    }

    /// Registers `route_id` for GET at pattern `glob`.
    pub fn get(&mut self, glob: &str, route_id: &str)
        requires
            old(self).wf(),
            no_nul(glob@),
            can_bind(old(self).route_ids(), route_id@, glob@),
        ensures
            final(self).wf(),
            final(self).patterns() == with_route(old(self).patterns(), glob@, Method::Get, route_id@),
            matcher_values(final(self).specific_matcher()).contains(
                registered_slot(old(self).patterns(), glob@) as usize,
            ),
            static_pattern(glob@) ==> forall|path: Seq<char>| #[trigger]
                matched(final(self).specific_matcher(), path) == after_static_add(
                    matched(old(self).specific_matcher(), path),
                    path,
                    glob@,
                    registered_slot(old(self).patterns(), glob@) as usize,
                ),
            final(self).route_ids() == insert_pair(old(self).route_ids(), route_id@, glob@),
            final(self).wildcard_routes() == old(self).wildcard_routes(),
            final(self).any_matcher() == old(self).any_matcher(),
            final(self).handler_seq() == old(self).handler_seq(),
    {
        self.route(Method::Get, glob, route_id)
    }

    /// Registers `route_id` for POST at pattern `glob`.
    pub fn post(&mut self, glob: &str, route_id: &str)
        requires
            old(self).wf(),
            no_nul(glob@),
            can_bind(old(self).route_ids(), route_id@, glob@),
        ensures
            final(self).wf(),
            final(self).patterns() == with_route(old(self).patterns(), glob@, Method::Post, route_id@),
            matcher_values(final(self).specific_matcher()).contains(
                registered_slot(old(self).patterns(), glob@) as usize,
            ),
            static_pattern(glob@) ==> forall|path: Seq<char>| #[trigger]
                matched(final(self).specific_matcher(), path) == after_static_add(
                    matched(old(self).specific_matcher(), path),
                    path,
                    glob@,
                    registered_slot(old(self).patterns(), glob@) as usize,
                ),
            final(self).route_ids() == insert_pair(old(self).route_ids(), route_id@, glob@),
            final(self).wildcard_routes() == old(self).wildcard_routes(),
            final(self).any_matcher() == old(self).any_matcher(),
            final(self).handler_seq() == old(self).handler_seq(),
    {
        self.route(Method::Post, glob, route_id)
    }

    /// Registers `route_id` for PUT at pattern `glob`.
    pub fn put(&mut self, glob: &str, route_id: &str)
        requires
            old(self).wf(),
            no_nul(glob@),
            can_bind(old(self).route_ids(), route_id@, glob@),
        ensures
            final(self).wf(),
            final(self).patterns() == with_route(old(self).patterns(), glob@, Method::Put, route_id@),
            matcher_values(final(self).specific_matcher()).contains(
                registered_slot(old(self).patterns(), glob@) as usize,
            ),
            static_pattern(glob@) ==> forall|path: Seq<char>| #[trigger]
                matched(final(self).specific_matcher(), path) == after_static_add(
                    matched(old(self).specific_matcher(), path),
                    path,
                    glob@,
                    registered_slot(old(self).patterns(), glob@) as usize,
                ),
            final(self).route_ids() == insert_pair(old(self).route_ids(), route_id@, glob@),
            final(self).wildcard_routes() == old(self).wildcard_routes(),
            final(self).any_matcher() == old(self).any_matcher(),
            final(self).handler_seq() == old(self).handler_seq(),
    {
        self.route(Method::Put, glob, route_id)
    }

    /// Registers `route_id` for DELETE at pattern `glob`.
    pub fn delete(&mut self, glob: &str, route_id: &str)
        requires
            old(self).wf(),
            no_nul(glob@),
            can_bind(old(self).route_ids(), route_id@, glob@),
        ensures
            final(self).wf(),
            final(self).patterns() == with_route(old(self).patterns(), glob@, Method::Delete, route_id@),
            matcher_values(final(self).specific_matcher()).contains(
                registered_slot(old(self).patterns(), glob@) as usize,
            ),
            static_pattern(glob@) ==> forall|path: Seq<char>| #[trigger]
                matched(final(self).specific_matcher(), path) == after_static_add(
                    matched(old(self).specific_matcher(), path),
                    path,
                    glob@,
                    registered_slot(old(self).patterns(), glob@) as usize,
                ),
            final(self).route_ids() == insert_pair(old(self).route_ids(), route_id@, glob@),
            final(self).wildcard_routes() == old(self).wildcard_routes(),
            final(self).any_matcher() == old(self).any_matcher(),
            final(self).handler_seq() == old(self).handler_seq(),
    {
        self.route(Method::Delete, glob, route_id)
    }

    /// Registers `route_id` for HEAD at pattern `glob`.
    pub fn head(&mut self, glob: &str, route_id: &str)
        requires
            old(self).wf(),
            no_nul(glob@),
            can_bind(old(self).route_ids(), route_id@, glob@),
        ensures
            final(self).wf(),
            final(self).patterns() == with_route(old(self).patterns(), glob@, Method::Head, route_id@),
            matcher_values(final(self).specific_matcher()).contains(
                registered_slot(old(self).patterns(), glob@) as usize,
            ),
            static_pattern(glob@) ==> forall|path: Seq<char>| #[trigger]
                matched(final(self).specific_matcher(), path) == after_static_add(
                    matched(old(self).specific_matcher(), path),
                    path,
                    glob@,
                    registered_slot(old(self).patterns(), glob@) as usize,
                ),
            final(self).route_ids() == insert_pair(old(self).route_ids(), route_id@, glob@),
            final(self).wildcard_routes() == old(self).wildcard_routes(),
            final(self).any_matcher() == old(self).any_matcher(),
            final(self).handler_seq() == old(self).handler_seq(),
    {
        self.route(Method::Head, glob, route_id)
    }

    /// Registers `route_id` for PATCH at pattern `glob`.
    pub fn patch(&mut self, glob: &str, route_id: &str)
        requires
            old(self).wf(),
            no_nul(glob@),
            can_bind(old(self).route_ids(), route_id@, glob@),
        ensures
            final(self).wf(),
            final(self).patterns() == with_route(old(self).patterns(), glob@, Method::Patch, route_id@),
            matcher_values(final(self).specific_matcher()).contains(
                registered_slot(old(self).patterns(), glob@) as usize,
            ),
            static_pattern(glob@) ==> forall|path: Seq<char>| #[trigger]
                matched(final(self).specific_matcher(), path) == after_static_add(
                    matched(old(self).specific_matcher(), path),
                    path,
                    glob@,
                    registered_slot(old(self).patterns(), glob@) as usize,
                ),
            final(self).route_ids() == insert_pair(old(self).route_ids(), route_id@, glob@),
            final(self).wildcard_routes() == old(self).wildcard_routes(),
            final(self).any_matcher() == old(self).any_matcher(),
            final(self).handler_seq() == old(self).handler_seq(),
    {
        self.route(Method::Patch, glob, route_id)
    }

    /// Registers `route_id` for OPTIONS at pattern `glob`.
    pub fn options(&mut self, glob: &str, route_id: &str)
        requires
            old(self).wf(),
            no_nul(glob@),
            can_bind(old(self).route_ids(), route_id@, glob@),
        ensures
            final(self).wf(),
            final(self).patterns() == with_route(old(self).patterns(), glob@, Method::Options, route_id@),
            matcher_values(final(self).specific_matcher()).contains(
                registered_slot(old(self).patterns(), glob@) as usize,
            ),
            static_pattern(glob@) ==> forall|path: Seq<char>| #[trigger]
                matched(final(self).specific_matcher(), path) == after_static_add(
                    matched(old(self).specific_matcher(), path),
                    path,
                    glob@,
                    registered_slot(old(self).patterns(), glob@) as usize,
                ),
            final(self).route_ids() == insert_pair(old(self).route_ids(), route_id@, glob@),
            final(self).wildcard_routes() == old(self).wildcard_routes(),
            final(self).any_matcher() == old(self).any_matcher(),
            final(self).handler_seq() == old(self).handler_seq(),
    {
        self.route(Method::Options, glob, route_id)
    }

    /// Registers `route_id` at pattern `glob` for every method, as a fallback behind the
    /// method-specific patterns.
    pub fn any(&mut self, glob: &str, route_id: &str)
        requires
            old(self).wf(),
            no_nul(glob@),
            can_bind(old(self).route_ids(), route_id@, glob@),
        ensures
            final(self).wf(),
            final(self).wildcard_routes() == old(self).wildcard_routes().push(route_id@),
            matcher_values(final(self).any_matcher()).contains(old(self).wildcard_routes().len() as usize),
            static_pattern(glob@) ==> forall|path: Seq<char>| #[trigger]
                matched(final(self).any_matcher(), path) == after_static_add(
                    matched(old(self).any_matcher(), path),
                    path,
                    glob@,
                    old(self).wildcard_routes().len() as usize,
                ),
            final(self).route_ids() == insert_pair(old(self).route_ids(), route_id@, glob@),
            final(self).patterns() == old(self).patterns(),
            final(self).specific_matcher() == old(self).specific_matcher(),
            final(self).handler_seq() == old(self).handler_seq(),
    {
        let idx = self.wildcard_ids.len();
        matcher_add(&mut self.wildcard, glob, idx);
        let id = route_id.to_owned();
        self.wildcard_ids.push(id);
        proof {
            assert(self.wildcard_routes() =~= old(self).wildcard_routes().push(route_id@));
        }
        self.route_ids.insert(route_id.to_owned(), glob.to_owned());
    }

    fn wildcard_match(&self, path: &str, e: RouterError) -> (r: Result<Match, RouterError>)
        requires
            self.wf(),
            routable(path@),
        ensures
            match_view(r) == wildcard_or(self.wildcard_routes(), matched(self.any_matcher(), path@), e),
            r matches Ok(m) ==> m.params.wf(),
    {
        match matcher_recognize(&self.wildcard, path) {
            Some((i, p)) => {
                let id = self.wildcard_ids[i].clone();
                Ok(Match { route_id: id, params: ParamMap::from_vec(p) })
            },
            None => Err(e),
        }
    }

    /// Resolves `method` at `path` to a route id and the parameters bound by its pattern.
    pub fn recognize(&self, method: &Method, path: &str) -> (r: Result<Match, RouterError>)
        requires
            self.wf(),
        ensures
            match_view(r) == self.resolve_spec(*method, path@),
            r matches Ok(m) ==> m.params.wf(),
    {
        if !is_routable(path) {
            return Err(RouterError::NotFound);
        }
        match matcher_recognize(&self.matcher, path) {
            Some((i, p)) => {
                let mi = method.index();
                assert(self.entries@[i as int].1@.len() == METHOD_COUNT);
                match &self.entries[i].1[mi] {
                    Some(id) => Ok(Match { route_id: id.clone(), params: ParamMap::from_vec(p) }),
                    None => self.wildcard_match(path, RouterError::MethodNotAllowed),
                }
            },
            None => self.wildcard_match(path, RouterError::NotFound),
        }
    }

    /// The methods to announce for `path`: GET, POST, PUT, DELETE, HEAD and PATCH as far as
    /// the pattern that matches it has routes for them, and HEAD wherever GET is routed.
    pub fn handle_options(&self, path: &str) -> (r: Vec<Method>)
        requires
            self.wf(),
        ensures
            r@ == self.allowed_spec(path@),
    {
        let mut out: Vec<Method> = Vec::new();
        if !is_routable(path) {
            return out;
        }
        match matcher_recognize(&self.matcher, path) {
            Some((i, _)) => {
                let rs = &self.entries[i].1;
                assert(rs@.len() == METHOD_COUNT);
                let ghost rv = routes_view(rs@);
                let has_get = rs[1].is_some();
                let has_head = rs[5].is_some();
                if has_get {
                    out.push(Method::Get);
                }
                let ghost s1 = out@;
                if rs[2].is_some() {
                    out.push(Method::Post);
                }
                let ghost s2 = out@;
                if rs[3].is_some() {
                    out.push(Method::Put);
                }
                let ghost s3 = out@;
                if rs[4].is_some() {
                    out.push(Method::Delete);
                }
                let ghost s4 = out@;
                if has_head {
                    out.push(Method::Head);
                }
                let ghost s5 = out@;
                if rs[8].is_some() {
                    out.push(Method::Patch);
                }
                let ghost s6 = out@;
                proof {
                    assert(s1 =~= if_routed(rv, Method::Get));
                    assert(s2 =~= s1 + if_routed(rv, Method::Post));
                    assert(s3 =~= s2 + if_routed(rv, Method::Put));
                    assert(s4 =~= s3 + if_routed(rv, Method::Delete));
                    assert(s5 =~= s4 + if_routed(rv, Method::Head));
                    assert(s6 =~= s5 + if_routed(rv, Method::Patch));
                }
                if has_get && !has_head {
                    out.push(Method::Head);
                }
            },
            None => {},
        }
        out
    }

    fn attempt(&self, method: Method, path: &str) -> (r: Result<Resolution, RouterError>)
        requires
            self.wf(),
        ensures
            match r {
                Ok(x) => self.attempt_spec(method, path@) == Ok::<ResolutionView, RouterError>(x.view()),
                Err(e) => self.attempt_spec(method, path@) == Err::<ResolutionView, RouterError>(e),
            },
    {
        match self.recognize(&method, path) {
            Ok(found) => Ok(Resolution::Found { found, method }),
            Err(RouterError::MethodNotAllowed) => Err(RouterError::MethodNotAllowed),
            Err(e) => {
                if path.unicode_len() > 0 {
                    let t = toggle_trailing_slash(path);
                    match self.recognize(&method, t.as_str()) {
                        Ok(_) => Ok(Resolution::Redirect { path: t }),
                        Err(_) => Err(e),
                    }
                } else {
                    Err(e)
                }
            },
        }
    }

    /// Decides what to do with a request for `method` at `path`: dispatch a route, redirect
    /// to the path with its trailing slash toggled, list the allowed methods, or fail.
    pub fn handle_method(&self, method: Method, path: &str) -> (r: Resolution)
        requires
            self.wf(),
        ensures
            r.view() == self.dispatch_spec(method, path@),
    {
        match self.attempt(method, path) {
            Ok(r) => r,
            Err(e) => match method {
                Method::Options => Resolution::Allow { methods: self.handle_options(path) },
                Method::Head => match self.attempt(Method::Get, path) {
                    Ok(r) => r,
                    Err(e2) => Resolution::Failed { error: e2 },
                },
                _ => Resolution::Failed { error: e },
            },
        }
    }

    /// The registry of route ids and their patterns.
    pub fn route_map(&self) -> (r: &RouteMap)
        ensures
            r@ == self.route_ids(),
            self.wf() ==> r.wf(),
    {
        &self.route_ids
    }
}

/// What a well-formed router holds: a route slot per method in every pattern, and matchers
/// whose values all point at a pattern or a wildcard route.
pub proof fn lemma_wf<H>(r: &Router<H>)
    requires
        r.wf(),
    ensures
        slots_complete(r.patterns()),
        forall|v: usize| #[trigger]
            matcher_values(r.specific_matcher()).contains(v) ==> v < r.patterns().len(),
        forall|v: usize| #[trigger]
            matcher_values(r.any_matcher()).contains(v) ==> v < r.wildcard_routes().len(),
{
}

/// Registering `id` for `m` at `p` leaves an entry for exactly `p` whose route for `m` is `id`:
/// the existing entry for `p`, or a new last one.
pub proof fn lemma_registered_entry(es: Seq<EntryView>, p: Seq<char>, m: Method, id: Seq<char>)
    requires
        forall|i: int| 0 <= i < es.len() ==> (#[trigger] es[i]).1.len() == METHOD_COUNT,
    ensures
        ({
            let k = if pattern_index(es, p) >= 0 {
                pattern_index(es, p)
            } else {
                es.len() as int
            };
            &&& 0 <= k < with_route(es, p, m, id).len()
            &&& with_route(es, p, m, id)[k].0 == p
            &&& with_route(es, p, m, id)[k].1[method_index(m)] == Some(id)
        }),
{
    lemma_pattern_index(es, p);
}

/// A route registered for `m` is what `m` resolves to at every path that the method-specific
/// matcher sends to its pattern, with the parameters the matcher bound: the wildcard is not
/// consulted.
pub proof fn lemma_registered_route_resolves<H>(
    r: &Router<H>,
    m: Method,
    path: Seq<char>,
    i: usize,
    params: Pairs,
    id: Seq<char>,
)
    requires
        routable(path),
        matched(r.specific_matcher(), path) == Some((i, params)),
        r.patterns()[i as int].1[method_index(m)] == Some(id),
    ensures
        r.resolve_spec(m, path) == Ok::<(Seq<char>, Pairs), RouterError>((id, params)),
        r.dispatch_spec(m, path) == ResolutionView::Found(id, params, m),
{
}

/// After a static pattern `glob` is registered for `m` with `id`, as `route` leaves the
/// router, a request for `m` at `glob` resolves to `id` with no parameters.
pub proof fn lemma_static_route_resolves<H>(
    before: &Router<H>,
    after: &Router<H>,
    m: Method,
    glob: Seq<char>,
    id: Seq<char>,
)
    requires
        before.wf(),
        before.patterns().len() < usize::MAX,
        routable(glob),
        static_pattern(glob),
        after.patterns() == with_route(before.patterns(), glob, m, id),
        forall|path: Seq<char>| #[trigger]
            matched(after.specific_matcher(), path) == after_static_add(
                matched(before.specific_matcher(), path),
                path,
                glob,
                registered_slot(before.patterns(), glob) as usize,
            ),
    ensures
        after.resolve_spec(m, glob) == Ok::<(Seq<char>, Pairs), RouterError>((id, Seq::empty())),
{
    lemma_wf(before);
    lemma_registered_entry(before.patterns(), glob, m, id);
    assert(matched(after.specific_matcher(), glob) == after_static_add(
        matched(before.specific_matcher(), glob),
        glob,
        glob,
        registered_slot(before.patterns(), glob) as usize,
    ));
    lemma_pattern_index(before.patterns(), glob);
    let k = registered_slot(before.patterns(), glob);
    assert(k as usize as int == k);
    assert(matched(after.specific_matcher(), glob) == Some((k as usize, Seq::<(Seq<char>, Seq<char>)>::empty())));
    assert(after.patterns()[k].1[method_index(m)] == Some(id));
}

/// Once `id` is bound to pattern `g`, it may be bound again to `g` alone, and binding it to
/// `g` again leaves the registry as it was.
pub proof fn lemma_route_id_binding(ids: Pairs, id: Seq<char>, g: Seq<char>, g2: Seq<char>)
    ensures
        can_bind(insert_pair(ids, id, g), id, g2) <==> g2 == g,
        insert_pair(insert_pair(ids, id, g), id, g) == insert_pair(ids, id, g),
{
    lemma_insert_then_lookup(ids, id, g);
}

/// A path whose pattern has a route for some methods but none for `m` resolves, for `m`, to
/// the wildcard's route where the wildcard matcher matches it, and to `MethodNotAllowed`
/// otherwise.
pub proof fn lemma_other_method<H>(r: &Router<H>, m: Method, path: Seq<char>)
    requires
        routable(path),
        matched(r.specific_matcher(), path) matches Some((i, _)) && r.patterns()[i as int].1[method_index(m)] is None,
    ensures
        r.resolve_spec(m, path) == match matched(r.any_matcher(), path) {
            Some((j, q)) => Ok((r.wildcard_routes()[j as int], q)),
            None => Err(RouterError::MethodNotAllowed),
        },
        matched(r.any_matcher(), path) is None && m != Method::Options && m != Method::Head
            ==> r.dispatch_spec(m, path) == ResolutionView::Failed(
            RouterError::MethodNotAllowed,
        ),
{
}

/// A path that no route matches, while the path with its trailing slash toggled does, is
/// answered by a redirect to the toggled path, never by a route.
pub proof fn lemma_trailing_slash_redirects<H>(r: &Router<H>, m: Method, path: Seq<char>)
    requires
        r.resolve_spec(m, path) == Err::<(Seq<char>, Pairs), RouterError>(RouterError::NotFound),
        path.len() > 0,
        r.resolve_spec(m, toggled(path)) is Ok,
    ensures
        r.dispatch_spec(m, path) == ResolutionView::Redirect(toggled(path)),
{
}

/// A redirect is only ever to the toggled path, and only where that path resolves, for the
/// request's method or, for HEAD, as GET.
pub proof fn lemma_redirect_only_when_toggled_resolves<H>(r: &Router<H>, m: Method, path: Seq<char>)
    requires
        r.dispatch_spec(m, path) is Redirect,
    ensures
        r.dispatch_spec(m, path) == ResolutionView::Redirect(toggled(path)),
        path.len() > 0,
        r.resolve_spec(m, path) == Err::<(Seq<char>, Pairs), RouterError>(RouterError::NotFound)
            || m == Method::Head,
        r.resolve_spec(m, toggled(path)) is Ok || (m == Method::Head && r.resolve_spec(
            Method::Get,
            toggled(path),
        ) is Ok),
{
}

/// A pattern routed for GET alone announces exactly GET and HEAD.
pub proof fn lemma_options_get_only(rs: RoutesView)
    requires
        rs.len() == METHOD_COUNT,
        has_route(rs, Method::Get),
        forall|m: Method| m != Method::Get ==> !has_route(rs, m),
    ensures
        allowed_methods(rs) == seq![Method::Get, Method::Head],
{
    assert(!has_route(rs, Method::Post));
    assert(!has_route(rs, Method::Put));
    assert(!has_route(rs, Method::Delete));
    assert(!has_route(rs, Method::Head));
    assert(!has_route(rs, Method::Patch));
    assert(allowed_methods(rs) =~= seq![Method::Get, Method::Head]);
}

/// A pattern routed for POST alone announces exactly POST.
pub proof fn lemma_options_post_only(rs: RoutesView)
    requires
        rs.len() == METHOD_COUNT,
        has_route(rs, Method::Post),
        forall|m: Method| m != Method::Post ==> !has_route(rs, m),
    ensures
        allowed_methods(rs) == seq![Method::Post],
{
    assert(!has_route(rs, Method::Get));
    assert(!has_route(rs, Method::Put));
    assert(!has_route(rs, Method::Delete));
    assert(!has_route(rs, Method::Head));
    assert(!has_route(rs, Method::Patch));
    assert(allowed_methods(rs) =~= seq![Method::Post]);
}

/// Resolution depends on the route table, the method and the path alone: two routers with the
/// same table decide every request alike.
pub proof fn lemma_resolution_is_pure<H>(a: &Router<H>, b: &Router<H>, m: Method, path: Seq<char>)
    requires
        a.patterns() == b.patterns(),
        a.wildcard_routes() == b.wildcard_routes(),
        a.specific_matcher() == b.specific_matcher(),
        a.any_matcher() == b.any_matcher(),
    ensures
        a.resolve_spec(m, path) == b.resolve_spec(m, path),
        a.dispatch_spec(m, path) == b.dispatch_spec(m, path),
{
}

} // verus!
