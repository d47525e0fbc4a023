use vstd::prelude::*;
use crate::params::{Pairs, ParamMap, RouteMap, lookup, remove_pair, pairs_view};
use crate::path::{split_slash, split_slash_exec, views_of, take_base_path, base_path_of, base_segments, nonempty_segments};

verus! {

/// url::Url, carried through as an opaque value.
#[verifier::external_type_specification]
#[verifier::external_body]
pub struct ExUrl(url::Url);

/// What url writes as the path for these segments on a URL of this scheme: `/` followed by
/// the segments, each percent-encoded by the scheme's rules, joined by `/` (segments `.` and
/// `..` are left out, and a `file` drive letter is normalised).
pub uninterp spec fn encoded_path(scheme: Seq<char>, segments: Seq<Seq<char>>) -> Seq<char>;

/// What url writes as a query holding these pairs: each `key=value`, form-encoded, joined
/// by `&`, in order.
pub uninterp spec fn encoded_query(pairs: Pairs) -> Seq<char>;

/// Relies on url::Url::path_segments_mut: on a URL that can be a base, `clear` then
/// `extend` leaves the path that `encoded_path` names for the URL's scheme; url::Url::scheme
/// and url::Url::path read both back. `None`, and the URL unchanged, where the URL cannot be
/// a base.
#[verifier::external_body]
fn replace_path_segments(u: &mut url::Url, segments: &Vec<String>) -> (r: Option<(String, String)>)
    ensures
        r matches Some((scheme, p)) ==> p@ == encoded_path(scheme@, views_of(segments@)),
{
    match u.path_segments_mut() {
        Ok(mut path) => {
            path.clear().extend(segments.iter());
        },
        Err(()) => return None,
    }
    Some((u.scheme().to_string(), u.path().to_string()))
}

/// Relies on url::Url::set_query: with `None` the query is removed, as url::Url::query
/// reads back.
#[verifier::external_body]
fn clear_query(u: &mut url::Url) -> (r: Option<String>)
    ensures
        r.is_none(),
{
    u.set_query(None);
    u.query().map(|q| q.to_string())
}

/// Relies on url::Url::set_query and url::Url::query_pairs_mut: the query is removed, then
/// the pairs are appended form-encoded, so that url::Url::query reads back what
/// `encoded_query` names.
#[verifier::external_body]
fn replace_query_pairs(u: &mut url::Url, pairs: &Vec<(String, String)>) -> (r: Option<String>)
    ensures
        opt_str(r) == Some(encoded_query(pairs_view(pairs@))),
{
    u.set_query(None);
    u.query_pairs_mut().extend_pairs(pairs.iter().map(|p| (p.0.as_str(), p.1.as_str())));
    u.query().map(|q| q.to_string())
}

/// Relies on url::Url::set_fragment: with `None` the fragment is removed, as
/// url::Url::fragment reads back.
#[verifier::external_body]
fn clear_fragment(u: &mut url::Url) -> (r: Option<String>)
    ensures
        r.is_none(),
{
    u.set_fragment(None);
    u.fragment().map(|f| f.to_string())
}

/// A pattern segment that stands for a parameter: `:name` or `*name`, with a non-empty name.
pub open spec fn is_param_segment(seg: Seq<char>) -> bool {
    seg.len() > 1 && (seg[0] == ':' || seg[0] == '*')
}

/// Walks the pattern's segments: a parameter segment takes the value of its name out of the
/// parameters (`None` where it is missing), the first empty literal segment is dropped, and
/// every other literal is kept. Gives the path segments, the parameters left over, and
/// whether no empty literal has been dropped yet.
pub open spec fn fill_pattern(segs: Seq<Seq<char>>, params: Pairs) -> Option<
    (Seq<Seq<char>>, Pairs, bool),
>
    decreases segs.len(),
{
    if segs.len() == 0 {
        Some((Seq::empty(), params, true))
    } else {
        match fill_pattern(segs.drop_last(), params) {
            None => None,
            Some((out, ps, first)) => {
                let seg = segs.last();
                if is_param_segment(seg) {
                    match lookup(ps, seg.drop_first()) {
                        Some(v) => Some((out.push(v), remove_pair(ps, seg.drop_first()), first)),
                        None => None,
                    }
                } else if first && seg.len() == 0 {
                    Some((out, ps, false))
                } else {
                    Some((out.push(seg), ps, first))
                }
            },
        }
    }
}

proof fn lemma_fill_missing(s: Seq<Seq<char>>, k: int, params: Pairs)
    requires
        0 <= k <= s.len(),
        fill_pattern(s.subrange(0, k), params) is None,
    ensures
        fill_pattern(s, params) is None,
    decreases s.len(),
{
    if k == s.len() {
        assert(s.subrange(0, k) =~= s);
    } else {
        assert(s.drop_last().subrange(0, k) =~= s.subrange(0, k));
        lemma_fill_missing(s.drop_last(), k, params);
    }
}

/// The path segments of the URL for pattern `glob` under mount prefix `base_path`, and the
/// parameters left for the query; `None` where a parameter of the pattern is missing.
pub open spec fn url_parts(glob: Seq<char>, params: Pairs, base_path: Seq<char>) -> Option<
    (Seq<Seq<char>>, Pairs),
> {
    match fill_pattern(split_slash(glob), params) {
        Some((out, rest, _)) => Some((base_segments(split_slash(base_path)) + out, rest)),
        None => None,
    }
}

pub open spec fn parts_view(r: Option<(Vec<String>, ParamMap)>) -> Option<(Seq<Seq<char>>, Pairs)> {
    match r {
        Some((segs, rest)) => Some((views_of(segs@), rest@)),
        None => None,
    }
}

/// Computes the path segments and the leftover query parameters of a URL for `glob`.
pub fn url_path_parts(glob: &str, params: ParamMap, base_path: &str) -> (r: Option<
    (Vec<String>, ParamMap),
>)
    ensures
        parts_view(r) == url_parts(glob@, params@, base_path@),
{
    let ghost p0 = params@;
    let mut rest = params;
    let mut segments = nonempty_segments(base_path);
    let ghost base_part = views_of(segments@);
    let pieces = split_slash_exec(glob);
    let ghost gv = views_of(pieces@);
    let mut first = true;
    let mut j: usize = 0;
    proof {
        assert(gv.subrange(0, 0) =~= Seq::<Seq<char>>::empty());
        assert(views_of(segments@) =~= base_part + Seq::<Seq<char>>::empty());
    }
    while j < pieces.len()
        invariant
            j <= pieces@.len(),
            gv == views_of(pieces@),
            gv == split_slash(glob@),
            p0 == params@,
            fill_pattern(gv.subrange(0, j as int), p0) matches Some((out, ps, f)) && views_of(
                segments@,
            ) == base_part + out && ps == rest@ && f == first,
        decreases pieces@.len() - j,
    {
        let ghost t = gv.subrange(0, j + 1);
        let ghost prev = fill_pattern(gv.subrange(0, j as int), p0).unwrap();
        proof {
            assert(t.drop_last() =~= gv.subrange(0, j as int));
            assert(t.last() == pieces@[j as int]@);
        }
        let seg = &pieces[j];
        let n = seg.unicode_len();
        let is_param = n > 1 && (seg.get_char(0) == ':' || seg.get_char(0) == '*');
        if is_param {
            let key = seg.as_str().substring_char(1, n);
            proof {
                assert(key@ =~= seg@.drop_first());
            }
            
            match rest.remove(key) {
                Some(v) => {
                    let ghost s0 = segments@;
                    segments.push(v);
                    proof {
                        assert(views_of(segments@) =~= views_of(s0).push(v@));
                        assert(base_part + prev.0.push(v@) =~= (base_part + prev.0).push(v@));
                    }
                },
                None => {
                    proof {
                        assert(is_param_segment(t.last()));
                        assert(fill_pattern(t, p0) is None);
                        lemma_fill_missing(gv, j + 1, p0);
                    }
                    return None;
                },
            }
        } else if first && n == 0 {
            first = false;
        } else {
            let s = seg.clone();
            let ghost s0 = segments@;
            segments.push(s);
            proof {
                assert(views_of(segments@) =~= views_of(s0).push(s@));
                assert(base_part + prev.0.push(s@) =~= (base_part + prev.0).push(s@));
            }
        }
        j = j + 1;
    }
    proof {
        assert(gv.subrange(0, j as int) =~= gv);
    }
    Some((segments, rest))
}

/// The scheme, path, query and fragment of a URL as read back after it was rewritten; `path`
/// is `None`, and `scheme` empty, where the URL cannot hold a path.
pub struct UrlWritten {
    pub scheme: String,
    pub path: Option<String>,
    pub query: Option<String>,
    pub fragment: Option<String>,
}

pub open spec fn opt_str(o: Option<String>) -> Option<Seq<char>> {
    match o {
        Some(s) => Some(s@),
        None => None,
    }
}

/// What rewriting a URL for `parts` (path segments, leftover parameters) reads back: the
/// encoded segments as path, the leftover parameters as query (none where there are none),
/// and no fragment.
pub open spec fn written_as(w: UrlWritten, parts: (Seq<Seq<char>>, Pairs)) -> bool {
    &&& (w.path matches Some(p) ==> p@ == encoded_path(w.scheme@, parts.0))
    &&& opt_str(w.query) == (if parts.1.len() == 0 {
        None
    } else {
        Some(encoded_query(parts.1))
    })
    &&& w.fragment is None
}

/// Rewrites `url` to point at pattern `glob` under mount prefix `base_path`: its path becomes
/// the prefix's segments followed by the pattern's, each parameter segment replaced by the
/// value of its name in `params`; the parameters left over become its query, in their order;
/// its fragment is removed. Every parameter that the pattern names must be given.
pub fn url_for_impl(url: &mut url::Url, glob: &str, params: ParamMap, base_path: &str) -> (r:
    UrlWritten)
    requires
        url_parts(glob@, params@, base_path@) is Some,
    ensures
        written_as(r, url_parts(glob@, params@, base_path@).unwrap()),
{
    match url_path_parts(glob, params, base_path) {
        Some((segments, rest)) => {
            let (scheme, path) = match replace_path_segments(url, &segments) {
                Some((scheme, p)) => (scheme, Some(p)),
                None => (String::new(), None),
            };
            let query = if rest.is_empty() {
                clear_query(url)
            } else {
                let pairs = rest.to_vec();
                replace_query_pairs(url, &pairs)
            };
            let fragment = clear_fragment(url);
            UrlWritten { scheme, path, query, fragment }
        },
        None => UrlWritten { scheme: String::new(), path: None, query: None, fragment: None },
    }
}

/// What a handler knows of the request it serves: the parameters that the matched pattern
/// bound, the registry of route ids, and, where the router is mounted under a prefix, the
/// original path together with the path that the router saw.
pub struct RequestContext {
    pub params: ParamMap,
    pub routes: RouteMap,
    pub mount: Option<(String, String)>,
}

pub open spec fn mount_prefix(mount: Option<(String, String)>) -> Seq<char> {
    match mount {
        Some((original, routed)) => base_path_of(original@, routed@),
        None => Seq::empty(),
    }
}

/// The value of parameter `name` of the request, or the empty string where it has none.
pub fn get_parameter(ctx: &RequestContext, name: &str) -> (r: String)
    ensures
        r@ == match lookup(ctx.params@, name@) {
            Some(v) => v,
            None => Seq::empty(),
        },
{
    match ctx.params.find(name) {
        Some(v) => v,
        None => String::new(),
    }
}

/// The mount prefix of the request: empty where the router is not mounted.
pub fn request_base_path(ctx: &RequestContext) -> (r: String)
    ensures
        r@ == mount_prefix(ctx.mount),
{
    match &ctx.mount {
        Some((original, routed)) => take_base_path(original.as_str(), routed.as_str()),
        None => String::new(),
    }
}

/// A URL built for a route, with what was read back from it.
pub struct BuiltUrl {
    pub url: url::Url,
    pub written: UrlWritten,
}

/// The URL of route `route_id` with `params`, built from `url`, the URL that was requested
/// (the original one where the router is mounted): the mount prefix that the request reveals,
/// then the route's pattern filled from `params`, the rest of `params` as query. The route id
/// must be registered, and every parameter of its pattern given.
pub fn url_for(ctx: &RequestContext, url: url::Url, route_id: &str, params: ParamMap) -> (r: BuiltUrl)
    requires
        lookup(ctx.routes@, route_id@) matches Some(glob) && url_parts(
            glob,
            params@,
            mount_prefix(ctx.mount),
        ) is Some,
    ensures
        written_as(
            r.written,
            url_parts(lookup(ctx.routes@, route_id@).unwrap(), params@, mount_prefix(ctx.mount)).unwrap(),
        ),
{
    let mut url = url;
    let base = request_base_path(ctx);
    match ctx.routes.get(route_id) {
        Some(glob) => {
            let written = url_for_impl(&mut url, glob.as_str(), params, base.as_str());
            BuiltUrl { url, written }
        },
        None => BuiltUrl { url, written: UrlWritten { scheme: String::new(), path: None, query: None, fragment: None } },
    }
}

} // verus!
