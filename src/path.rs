use vstd::prelude::*;

verus! {

/// The pieces of `s` between `/` characters, as `str::split('/')` yields them:
/// there is always at least one piece, and `k` slashes give `k + 1` pieces.
pub open spec fn split_slash(s: Seq<char>) -> Seq<Seq<char>>
    decreases s.len(),
{
    if s.len() == 0 {
        seq![Seq::empty()]
    } else {
        let rest = split_slash(s.drop_last());
        if s.last() == '/' {
            rest.push(Seq::empty())
        } else {
            rest.update(rest.len() - 1, rest.last().push(s.last()))
        }
    }
}

/// Splitting always yields at least one piece.
pub proof fn lemma_split_slash_nonempty(s: Seq<char>)
    ensures
        split_slash(s).len() >= 1,
    decreases s.len(),
{
    if s.len() > 0 {
        lemma_split_slash_nonempty(s.drop_last());
    }
}

/// The character sequences of a sequence of strings.
pub open spec fn views_of(v: Seq<String>) -> Seq<Seq<char>> {
    v.map_values(|p: String| p@)
}

/// Splits `s` at every `/`.
pub fn split_slash_exec(s: &str) -> (r: Vec<String>)
    ensures
        views_of(r@) == split_slash(s@),
{
    let n = s.unicode_len();
    let mut pieces: Vec<String> = Vec::new();
    let mut start: usize = 0;
    let mut i: usize = 0;
    proof {
        assert(s@.subrange(0, 0) =~= Seq::<char>::empty());
        assert(views_of(pieces@).push(s@.subrange(0, 0)) =~= seq![Seq::<char>::empty()]);
    }
    while i < n
        invariant
            n == s@.len(),
            start <= i <= n,
            views_of(pieces@).push(s@.subrange(start as int, i as int)) == split_slash(
                s@.subrange(0, i as int),
            ),
        decreases n - i,
    {
        let c = s.get_char(i);
        proof {
            let t = s@.subrange(0, i as int + 1);
            assert(t.drop_last() == s@.subrange(0, i as int));
            assert(t.last() == c);
        }
        if c == '/' {
            let piece = s.substring_char(start, i).to_owned();
            proof {
                assert(s@.subrange(i as int + 1, i as int + 1) == Seq::<char>::empty());
            }
            let ghost before = pieces@;
            pieces.push(piece);
            start = i + 1;
            proof {
                assert(views_of(pieces@) =~= views_of(before).push(piece@));
            }
        } else {
            proof {
                assert(s@.subrange(start as int, i as int + 1) == s@.subrange(
                    start as int,
                    i as int,
                ).push(c));
            }
        }
        i = i + 1;
    }
    let last = s.substring_char(start, n).to_owned();
    let ghost before = pieces@;
    pieces.push(last);
    proof {
        assert(s@.subrange(0, n as int) == s@);
        assert(views_of(pieces@) =~= views_of(before).push(last@));
    }
    pieces
}

/// The path with its trailing slash toggled: a final `/` is removed, otherwise one is added.
pub open spec fn toggled(path: Seq<char>) -> Seq<char> {
    if path.len() > 0 && path.last() == '/' {
        path.drop_last()
    } else {
        path.push('/')
    }
}

/// Removes a final `/` from `path`, or appends one where there is none.
pub fn toggle_trailing_slash(path: &str) -> (r: String)
    ensures
        r@ == toggled(path@),
{
    let n = path.unicode_len();
    if n > 0 && path.get_char(n - 1) == '/' {
        let r = path.substring_char(0, n - 1).to_owned();
        proof {
            assert(r@ =~= path@.drop_last());
        }
        r
    } else {
        let mut r = path.to_owned();
        r.append("/");
        proof {
            reveal_strlit("/");
            assert(r@ =~= path@.push('/'));
        }
        r
    }
}

/// The non-empty pieces among `segs`, in order.
pub open spec fn base_segments(segs: Seq<Seq<char>>) -> Seq<Seq<char>>
    decreases segs.len(),
{
    if segs.len() == 0 {
        Seq::empty()
    } else if segs.last().len() > 0 {
        base_segments(segs.drop_last()).push(segs.last())
    } else {
        base_segments(segs.drop_last())
    }
}

/// The non-empty `/`-separated segments of `s`.
pub fn nonempty_segments(s: &str) -> (r: Vec<String>)
    ensures
        views_of(r@) == base_segments(split_slash(s@)),
{
    let pieces = split_slash_exec(s);
    let ghost bv = views_of(pieces@);
    let mut segments: Vec<String> = Vec::new();
    let mut k: usize = 0;
    proof {
        assert(views_of(segments@) =~= base_segments(bv.subrange(0, 0)));
    }
    while k < pieces.len()
        invariant
            k <= pieces@.len(),
            bv == views_of(pieces@),
            views_of(segments@) == base_segments(bv.subrange(0, k as int)),
        decreases pieces@.len() - k,
    {
        proof {
            let t = bv.subrange(0, k + 1);
            assert(t.drop_last() =~= bv.subrange(0, k as int));
            assert(t.last() == pieces@[k as int]@);
        }
        if pieces[k].unicode_len() > 0 {
            let seg = pieces[k].clone();
            let ghost s0 = segments@;
            segments.push(seg);
            proof {
                assert(views_of(segments@) =~= views_of(s0).push(seg@));
            }
        }
        k = k + 1;
    }
    proof {
        assert(bv.subrange(0, k as int) =~= bv);
    }
    segments
}

/// The mount prefix read off the non-empty segments `req` of the original path, from
/// position `k` on, against the non-empty segments `route` of the routed path: segments are
/// kept, each followed by `/`, while more of them remain than the routed path has, and until
/// one equals the first routed segment.
pub open spec fn base_prefix(req: Seq<Seq<char>>, route: Seq<Seq<char>>, k: int) -> Seq<char>
    decreases req.len() - k,
{
    if k < 0 || k >= req.len() || req.len() - k <= route.len() || (route.len() > 0 && req[k]
        == route[0]) {
        Seq::empty()
    } else {
        req[k] + seq!['/'] + base_prefix(req, route, k + 1)
    }
}

/// The part of the original path `requested` that a mount stripped off before the router saw
/// `routed`: empty when the two are equal.
pub open spec fn base_path_of(requested: Seq<char>, routed: Seq<char>) -> Seq<char> {
    if requested == routed {
        Seq::empty()
    } else {
        base_prefix(base_segments(split_slash(requested)), base_segments(split_slash(routed)), 0)
    }
}

/// Computes the mount prefix of `requested` relative to the routed path `routed`.
pub fn take_base_path(requested: &str, routed: &str) -> (r: String)
    ensures
        r@ == base_path_of(requested@, routed@),
        requested@ == routed@ ==> r@.len() == 0,
{
    let req_owned = requested.to_owned();
    let routed_owned = routed.to_owned();
    if req_owned == routed_owned {
        return String::new();
    }
    let route = nonempty_segments(routed);
    let req = nonempty_segments(requested);
    let ghost rv = views_of(route@);
    let ghost qv = views_of(req@);
    let mut s = String::new();
    let mut k: usize = 0;
    let mut done = false;
    proof {
        assert(s@ + base_prefix(qv, rv, 0) =~= base_prefix(qv, rv, 0));
    }
    while k < req.len() && !done
        invariant
            rv == views_of(route@),
            qv == views_of(req@),
            k <= qv.len(),
            base_prefix(qv, rv, 0) == s@ + (if done {
                Seq::<char>::empty()
            } else {
                base_prefix(qv, rv, k as int)
            }),
        decreases qv.len() - k, (if done { 0int } else { 1int }),
    {
        if req.len() - k <= route.len() || (route.len() > 0 && req[k] == route[0]) {
            done = true;
        } else {
            let ghost s0 = s@;
            s.append(req[k].as_str());
            s.append("/");
            proof {
                reveal_strlit("/");
                assert(s@ + base_prefix(qv, rv, k + 1) =~= s0 + (qv[k as int] + seq!['/']
                    + base_prefix(qv, rv, k + 1)));
            }
            k = k + 1;
        }
    }
    proof {
        assert(s@ + Seq::<char>::empty() =~= s@);
    }
    s
}

/// ASCII characters other than NUL: those of a percent-encoded URL path, and the only ones
/// the pattern matcher handles.
pub open spec fn routable(s: Seq<char>) -> bool {
    forall|i: int| 0 <= i < s.len() ==> '\x01' <= #[trigger] s[i] <= '\x7f'
}

/// Whether every character of `s` is ASCII and not NUL.
pub fn is_routable(s: &str) -> (r: bool)
    ensures
        r == routable(s@),
{
    let n = s.unicode_len();
    let mut i: usize = 0;
    while i < n
        invariant
            n == s@.len(),
            i <= n,
            forall|j: int| 0 <= j < i ==> '\x01' <= #[trigger] s@[j] <= '\x7f',
        decreases n - i,
    {
        let c = s.get_char(i);
        if c < '\x01' || c > '\x7f' {
            return false;
        }
        i = i + 1;
    }
    true
}

/// No character is NUL: what the pattern matcher needs of a pattern.
pub open spec fn no_nul(s: Seq<char>) -> bool {
    forall|i: int| 0 <= i < s.len() ==> #[trigger] s[i] != '\x00'
}

/// Whether no character of `s` is NUL.
pub fn is_nul_free(s: &str) -> (r: bool)
    ensures
        r == no_nul(s@),
{
    let n = s.unicode_len();
    let mut i: usize = 0;
    while i < n
        invariant
            n == s@.len(),
            i <= n,
            forall|j: int| 0 <= j < i ==> #[trigger] s@[j] != '\x00',
        decreases n - i,
    {
        if s.get_char(i) == '\x00' {
            return false;
        }
        i = i + 1;
    }
    true
}

/// Toggling the trailing slash keeps a path routable.
pub proof fn lemma_toggled_routable(path: Seq<char>)
    requires
        routable(path),
    ensures
        routable(toggled(path)),
{
    if path.len() > 0 && path.last() == '/' {
        assert forall|i: int| 0 <= i < path.drop_last().len() implies '\x01' <= #[trigger] path.drop_last()[i] <= '\x7f' by {
            assert(path.drop_last()[i] == path[i]);
        }
    } else {
        assert forall|i: int| 0 <= i < path.push('/').len() implies '\x01' <= #[trigger] path.push('/')[i] <= '\x7f' by {
            if i < path.len() {
                assert(path.push('/')[i] == path[i]);
            }
        }
    }
}

} // verus!
