//! Route and request paths: `/`-separated segments that are either literal
//! (static) or named wildcards written `:name` (dynamic).
use vstd::prelude::*;
use crate::text::{alphabetic, chars_of, is_alphabetic, split, split_seq, string_of, views};
use crate::text_map::{lemma_map_of_push, map_of, TextMap};

verus! {

/// Whether a segment is literal or a named wildcard.
#[derive(Debug, Clone, Copy, PartialEq, Eq, Structural)]
pub enum PathPartType {
    Static,
    Dynamic,
}

/// A segment as text and kind; a dynamic segment's text is its name.
pub type PartView = (Seq<char>, PathPartType);

/// The segment that the non-empty piece `seg` denotes, if it is well formed.
pub open spec fn part_of(seg: Seq<char>) -> Option<PartView> {
    if seg.len() == 0 {
        None
    } else if seg[0] == ':' {
        Some((seg.skip(1), PathPartType::Dynamic))
    } else if !alphabetic(seg[0]) {
        None
    } else {
        Some((seg, PathPartType::Static))
    }
}

/// The segments of the pieces `p`, empty pieces dropped; `None` if one is
/// malformed.
pub open spec fn parts_of_pieces(p: Seq<Seq<char>>) -> Option<Seq<PartView>>
    decreases p.len(),
{
    if p.len() == 0 {
        Some(Seq::empty())
    } else if p.last().len() == 0 {
        parts_of_pieces(p.drop_last())
    } else {
        match (parts_of_pieces(p.drop_last()), part_of(p.last())) {
            (Some(ps), Some(q)) => Some(ps.push(q)),
            _ => None,
        }
    }
}

/// The path that `text` denotes: it starts with `/`, and its non-empty
/// `/`-separated pieces are its segments.
pub open spec fn parse_path(text: Seq<char>) -> Option<Seq<PartView>> {
    if text.len() == 0 || text[0] != '/' {
        None
    } else {
        parts_of_pieces(split_seq(text, seq!['/']))
    }
}

/// A route path matches a request path when they have as many segments and
/// each static segment of the route equals the request's segment there.
pub open spec fn path_matches(route: Seq<PartView>, req: Seq<PartView>) -> bool {
    route.len() == req.len() && forall|i: int|
        0 <= i < route.len() ==> route[i].1 == PathPartType::Dynamic || route[i].0 == req[i].0
}

/// The (name, value) pairs bound by the first `n` segments: a dynamic route
/// segment facing a static request segment binds its name to that text.
pub open spec fn param_pairs(route: Seq<PartView>, req: Seq<PartView>, n: int) -> Seq<
    (Seq<char>, Seq<char>),
>
    decreases n,
{
    if n <= 0 {
        Seq::empty()
    } else if route[n - 1].1 == PathPartType::Dynamic && req[n - 1].1 == PathPartType::Static {
        param_pairs(route, req, n - 1).push((route[n - 1].0, req[n - 1].0))
    } else {
        param_pairs(route, req, n - 1)
    }
}

/// The parameters a route binds against a request path of the same length.
pub open spec fn params_of(route: Seq<PartView>, req: Seq<PartView>) -> Map<Seq<char>, Seq<char>> {
    map_of(param_pairs(route, req, route.len() as int))
}

/// The names of the dynamic segments of a route.
pub open spec fn dynamic_names(route: Seq<PartView>) -> Set<Seq<char>> {
    Set::new(|k: Seq<char>| exists|i: int| 0 <= i < route.len() && route[i].1 == PathPartType::Dynamic && route[i].0 == k)
}

/// The path has no dynamic segment.
pub open spec fn all_static(p: Seq<PartView>) -> bool {
    forall|i: int| 0 <= i < p.len() ==> p[i].1 == PathPartType::Static
}

/// Matching looks at the request's text only where the route is static: two
/// request paths of one length that agree on the route's static positions
/// are both matched or both not, whatever their other segments hold.
pub proof fn lemma_matching_ignores_dynamic_positions(
    route: Seq<PartView>,
    req1: Seq<PartView>,
    req2: Seq<PartView>,
)
    requires
        req1.len() == req2.len(),
        forall|i: int|
            0 <= i < route.len() && i < req1.len() && route[i].1 == PathPartType::Static ==> req1[i].0
                == req2[i].0,
    ensures
        path_matches(route, req1) == path_matches(route, req2),
{
    if path_matches(route, req1) {
        assert forall|i: int| 0 <= i < route.len() implies route[i].1 == PathPartType::Dynamic
            || route[i].0 == req2[i].0 by {
            if route[i].1 == PathPartType::Static {
                assert(route[i].0 == req1[i].0);
            }
        }
    }
    if path_matches(route, req2) {
        assert forall|i: int| 0 <= i < route.len() implies route[i].1 == PathPartType::Dynamic
            || route[i].0 == req1[i].0 by {
            if route[i].1 == PathPartType::Static {
                assert(route[i].0 == req2[i].0);
            }
        }
    }
}

/// The names of a route's dynamic segments do not change what it matches.
pub proof fn lemma_matching_ignores_dynamic_names(
    route1: Seq<PartView>,
    route2: Seq<PartView>,
    req: Seq<PartView>,
)
    requires
        route1.len() == route2.len(),
        forall|i: int|
            0 <= i < route1.len() ==> route1[i].1 == route2[i].1 && (route1[i].1
                == PathPartType::Static ==> route1[i].0 == route2[i].0),
    ensures
        path_matches(route1, req) == path_matches(route2, req),
{
    if path_matches(route1, req) {
        assert forall|i: int| 0 <= i < route2.len() implies route2[i].1 == PathPartType::Dynamic
            || route2[i].0 == req[i].0 by {
            assert(route1[i].1 == PathPartType::Dynamic || route1[i].0 == req[i].0);
        }
    }
    if path_matches(route2, req) {
        assert forall|i: int| 0 <= i < route1.len() implies route1[i].1 == PathPartType::Dynamic
            || route1[i].0 == req[i].0 by {
            assert(route2[i].1 == PathPartType::Dynamic || route2[i].0 == req[i].0);
        }
    }
}

proof fn lemma_param_domain(route: Seq<PartView>, req: Seq<PartView>, n: int, k: Seq<char>)
    requires
        0 <= n <= route.len(),
        route.len() == req.len(),
        all_static(req),
    ensures
        map_of(param_pairs(route, req, n)).contains_key(k) <==> exists|i: int|
            0 <= i < n && route[i].1 == PathPartType::Dynamic && route[i].0 == k,
    decreases n,
{
    if n > 0 {
        lemma_param_domain(route, req, n - 1, k);
        if route[n - 1].1 == PathPartType::Dynamic {
            lemma_map_of_push(param_pairs(route, req, n - 1), route[n - 1].0, req[n - 1].0);
        }
        if exists|i: int| 0 <= i < n && route[i].1 == PathPartType::Dynamic && route[i].0 == k {
            let i = choose|i: int| 0 <= i < n && route[i].1 == PathPartType::Dynamic && route[i].0 == k;
            if i < n - 1 {
                assert(exists|i: int| 0 <= i < n - 1 && route[i].1 == PathPartType::Dynamic && route[i].0 == k);
            }
        }
    }
}

/// For a request path without dynamic segments that a route matches, the
/// parameters bound have exactly the route's dynamic segment names as keys.
pub proof fn lemma_param_keys(route: Seq<PartView>, req: Seq<PartView>)
    requires
        path_matches(route, req),
        all_static(req),
    ensures
        params_of(route, req).dom() == dynamic_names(route),
{
    assert forall|k: Seq<char>| params_of(route, req).dom().contains(k) <==> dynamic_names(route).contains(k) by {
        lemma_param_domain(route, req, route.len() as int, k);
    }
    assert(params_of(route, req).dom() =~= dynamic_names(route));
}

/// One segment of a path.
#[derive(Debug, Clone)]
pub struct PathPart {
    part: String,
    part_type: PathPartType,
}

impl View for PathPart {
    type V = PartView;

    closed spec fn view(&self) -> PartView {
        (self.part@, self.part_type)
    }
}

/// A segment that is empty or starts with neither `:` nor a letter.
#[derive(Debug)]
pub struct PathPartParseError {}

/// A path that does not start with `/` or holds a malformed segment.
#[derive(Debug)]
pub struct PathParseError {}

impl PathPartParseError {
    /// The error's message.
    pub fn to_string(&self) -> (r: String)
        ensures
            r@ == "Failed to Parse PathPart"@,
    {
        String::from_str("Failed to Parse PathPart")
    }
}

impl PathParseError {
    /// The error's message.
    pub fn to_string(&self) -> (r: String)
        ensures
            r@ == "Failed to Parse str to a Path\n"@,
    {
        String::from_str("Failed to Parse str to a Path\n")
    }
}

impl PathPart {
    /// The segment that the piece `seg` denotes.
    pub fn from_chars(seg: &[char]) -> (r: Result<PathPart, PathPartParseError>)
        ensures
            match part_of(seg@) {
                Some(v) => r matches Ok(p) && p@ == v,
                None => r is Err,
            },
    {
        if seg.len() == 0 {
            return Err(PathPartParseError {});
        }
        if seg[0] == ':' {
            let name = string_of(seg, 1, seg.len());
            assert(seg@.subrange(1, seg@.len() as int) =~= seg@.skip(1));
            Ok(PathPart { part: name, part_type: PathPartType::Dynamic })
        } else if !is_alphabetic(seg[0]) {
            Err(PathPartParseError {})
        } else {
            let text = string_of(seg, 0, seg.len());
            assert(seg@.subrange(0, seg@.len() as int) =~= seg@);
            Ok(PathPart { part: text, part_type: PathPartType::Static })
        }
    }

    /// The segment's text; for a dynamic segment, its name.
    pub fn text(&self) -> (r: &String)
        ensures
            r@ == self@.0,
    {
        &self.part
    }

    /// Whether the segment is static or dynamic.
    pub fn kind(&self) -> (r: PathPartType)
        ensures
            r == self@.1,
    {
        self.part_type
    }
}

impl std::str::FromStr for PathPart {
    type Err = PathPartParseError;

    fn from_str(s: &str) -> Result<PathPart, PathPartParseError> {
        PathPart::from_chars(chars_of(s).as_slice())
    }
}

/// The views of a sequence of segments.
pub open spec fn part_views(v: Seq<PathPart>) -> Seq<PartView> {
    v.map_values(|p: PathPart| p@)
}

proof fn lemma_prefix_failure(p: Seq<Seq<char>>, n: int)
    requires
        0 <= n <= p.len(),
        parts_of_pieces(p.take(n)) is None,
    ensures
        parts_of_pieces(p) is None,
    decreases p.len(),
{
    if n == p.len() {
        assert(p.take(n) =~= p);
    } else {
        assert(p.drop_last().take(n) =~= p.take(n));
        lemma_prefix_failure(p.drop_last(), n);
    }
}

/// A route or request path: its segments in order.
#[derive(Debug)]
pub struct Path {
    parts: Vec<PathPart>,
}

impl View for Path {
    type V = Seq<PartView>;

    closed spec fn view(&self) -> Seq<PartView> {
        part_views(self.parts@)
    }
}

impl Path {
    /// The path that the characters `cs` denote.
    pub fn parse_chars(cs: &[char]) -> (r: Result<Path, PathParseError>)
        ensures
            match parse_path(cs@) {
                Some(v) => r matches Ok(p) && p@ == v,
                None => r is Err,
            },
    {
        if cs.len() == 0 || cs[0] != '/' {
            return Err(PathParseError {});
        }
        let slash: [char; 1] = ['/'];
        assert(slash@ =~= seq!['/']);
        let pieces = split(cs, &slash);
        let ghost pv = views(pieces@);
        let mut parts: Vec<PathPart> = Vec::new();
        let mut i: usize = 0;
        assert(pv.take(0) =~= Seq::<Seq<char>>::empty());
        assert(part_views(parts@) =~= Seq::<PartView>::empty());
        while i < pieces.len()
            invariant
                pv == views(pieces@),
                pv == split_seq(cs@, seq!['/']),
                i <= pieces@.len(),
                parts_of_pieces(pv.take(i as int)) == Some(part_views(parts@)),
            decreases pieces@.len() - i,
        {
            let piece = &pieces[i];
            assert(pv.take(i + 1).drop_last() =~= pv.take(i as int));
            assert(pv.take(i + 1).last() == piece@);
            if piece.len() > 0 {
                match PathPart::from_chars(piece.as_slice()) {
                    Ok(p) => {
                        assert(part_views(parts@.push(p)) =~= part_views(parts@).push(p@));
                        parts.push(p);
                    },
                    Err(_) => {
                        proof {
                            lemma_prefix_failure(pv, i + 1);
                        }
                        return Err(PathParseError {});
                    },
                }
            }
            i = i + 1;
        }
        assert(pv.take(pieces@.len() as int) =~= pv);
        Ok(Path { parts })
    }

    /// The path that `path` denotes.
    pub fn parse(path: &str) -> (r: Result<Path, PathParseError>)
        ensures
            match parse_path(path@) {
                Some(v) => r matches Ok(p) && p@ == v,
                None => r is Err,
            },
    {
        let cs = chars_of(path);
        Path::parse_chars(cs.as_slice())
    }

    /// Number of segments.
    pub fn len(&self) -> (r: usize)
        ensures
            r == self@.len(),
    {
        self.parts.len()
    }

    /// The `i`-th segment.
    pub fn part(&self, i: usize) -> (r: &PathPart)
        requires
            i < self@.len(),
        ensures
            r@ == self@[i as int],
    {
        &self.parts[i]
    }

    /// Whether this path, taken as a route, matches the request path `other`.
    pub fn matches(&self, other: &Path) -> (r: bool)
        ensures
            r == path_matches(self@, other@),
    {
        if self.parts.len() != other.parts.len() {
            return false;
        }
        let mut i: usize = 0;
        while i < self.parts.len()
            invariant
                self@.len() == other@.len() == self.parts@.len() == other.parts@.len(),
                i <= self@.len(),
                forall|j: int|
                    0 <= j < i ==> self@[j].1 == PathPartType::Dynamic || self@[j].0 == other@[j].0,
            decreases self@.len() - i,
        {
            let a = &self.parts[i];
            let b = &other.parts[i];
            assert(self@[i as int] == a@ && other@[i as int] == b@);
            if a.part_type == PathPartType::Static && a.part != b.part {
                return false;
            }
            i = i + 1;
        }
        true
    }

    /// The segments of both paths side by side, when this route path
    /// matches `other`.
    pub fn get_if_matches(&self, other: &Path) -> (r: Option<Vec<(PathPart, PathPart)>>)
        ensures
            r is Some <==> path_matches(self@, other@),
            r matches Some(v) ==> v@.len() == self@.len() && forall|i: int|
                0 <= i < v@.len() ==> (#[trigger] v@[i]).0@ == self@[i] && v@[i].1@ == other@[i],
    {
        if !self.matches(other) {
            return None;
        }
        let mut v: Vec<(PathPart, PathPart)> = Vec::new();
        let mut i: usize = 0;
        while i < self.parts.len()
            invariant
                self@.len() == other@.len() == self.parts@.len() == other.parts@.len(),
                i <= self@.len(),
                v@.len() == i,
                forall|j: int| 0 <= j < i ==> (#[trigger] v@[j]).0@ == self@[j] && v@[j].1@ == other@[j],
            decreases self@.len() - i,
        {
            let a = self.parts[i].clone_part();
            let b = other.parts[i].clone_part();
            v.push((a, b));
            i = i + 1;
        }
        Some(v)
    }

    /// The parameters this route path binds against `req_path`, when it
    /// matches: each dynamic segment's name with the request's static
    /// segment at the same place.
    pub fn get_req_param(&self, req_path: &Path) -> (r: Option<TextMap>)
        ensures
            r is Some <==> path_matches(self@, req_path@),
            r matches Some(m) ==> m@ == params_of(self@, req_path@) && m.pairs().len() <= self@.len(),
    {
        let matched = self.get_if_matches(req_path);
        match matched {
            None => None,
            Some(pairs) => {
                let mut m = TextMap::new();
                let mut i: usize = 0;
                while i < pairs.len()
                    invariant
                        self@.len() == req_path@.len() == pairs@.len(),
                        i <= pairs@.len(),
                        forall|j: int| 0 <= j < pairs@.len() ==> (#[trigger] pairs@[j]).0@ == self@[j] && pairs@[j].1@ == req_path@[j],
                        m@ == map_of(param_pairs(self@, req_path@, i as int)),
                        m.pairs().len() <= i,
                    decreases pairs@.len() - i,
                {
                    let (a, b) = (&pairs[i].0, &pairs[i].1);
                    assert(pairs@[i as int].0@ == self@[i as int]);
                    assert(self@[i as int] == (a.part@, a.part_type));
                    assert(req_path@[i as int] == (b.part@, b.part_type));
                    if a.part_type == PathPartType::Dynamic && b.part_type == PathPartType::Static {
                        let k = a.part.clone();
                        let v = b.part.clone();
                        assert(param_pairs(self@, req_path@, i + 1) == param_pairs(self@, req_path@, i as int).push((k@, v@)));
                        proof {
                            lemma_map_of_push(param_pairs(self@, req_path@, i as int), k@, v@);
                        }
                        m.insert(k, v);
                    } else {
                        assert(param_pairs(self@, req_path@, i + 1) == param_pairs(self@, req_path@, i as int));
                    }
                    i = i + 1;
                }
                Some(m)
            },
        }
    }
}

impl PathPart {
    fn clone_part(&self) -> (r: PathPart)
        ensures
            r@ == self@,
    {
        PathPart { part: self.part.clone(), part_type: self.part_type }
    }
}

} // verus!
