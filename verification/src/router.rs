//! The route table: literal and templated path keys bound to per-method
//! handlers. Matching is deterministic: an exact literal match wins over
//! any template, and templates are tried in registration order.

use vstd::prelude::*;

verus! {

use vstd::string::StrSliceExecFns;
use crate::method::HttpRequestMethod;
use crate::request::HttpRequest;
use crate::strutil::is_param_char;
use crate::strutil::char_is_param;
use crate::strutil::split_char;
use crate::strutil::split_char_exec;
use crate::strutil::strs_view;
use crate::strutil::str_eq;
use crate::strutil::spec_trim;
use crate::strutil::trim;
use crate::strutil::spec_normalize_target;
use crate::strutil::normalize_target;

/// One compiled segment of a path template.
pub enum PathSeg {
    /// Must match the request-path segment verbatim.
    Lit(String),
    /// Matches any non-empty segment of characters from the parameter
    /// class, and binds it to the given name.
    Param(String),
}

/// A route's place in the table: an exact, slash-normalized literal path,
/// or a compiled template.
pub enum RouteKey {
    Literal(String),
    Template(Vec<PathSeg>),
}

/// A registered binding: one handler per method, plus the ordered
/// (1-based segment position, parameter name) pairs of the template.
pub struct Route<H> {
    pub handlers: Vec<(HttpRequestMethod, H)>,
    pub path_params: Vec<(usize, String)>,
}

pub struct HttpRouter<H> {
    pub routes: Vec<(RouteKey, Route<H>)>,
}

// ---------- segment and template matching ----------

pub open spec fn spec_seg_matches(seg: PathSeg, tok: Seq<char>) -> bool {
    match seg {
        PathSeg::Lit(s) => tok == s@,
        PathSeg::Param(_) => tok.len() > 0 && forall|i: int|
            0 <= i < tok.len() ==> is_param_char(#[trigger] tok[i]),
    }
}

/// A target matches a template exactly when it is `/` followed by one
/// segment per template segment, each matching in place: anchored at both
/// ends, with no empty segments.
pub open spec fn spec_template_matches(segs: Seq<PathSeg>, target: Seq<char>) -> bool {
    let toks = split_char(target, '/');
    &&& toks.len() == segs.len() + 1
    &&& toks[0] == Seq::<char>::empty()
    &&& forall|i: int| 1 <= i < toks.len() ==> spec_seg_matches(#[trigger] segs[i - 1], toks[i])
}

fn all_param_chars(tok: &str) -> (r: bool)
    ensures
        r == forall|i: int| 0 <= i < tok@.len() ==> is_param_char(#[trigger] tok@[i]),
{
    let n = tok.unicode_len();
    let mut i: usize = 0;
    while i < n
        invariant
            n == tok@.len(),
            i <= n,
            forall|j: int| 0 <= j < i ==> is_param_char(#[trigger] tok@[j]),
        decreases n - i,
    {
        if !char_is_param(tok.get_char(i)) {
            return false;
        }
        i += 1;
    }
    true
}

fn seg_matches(seg: &PathSeg, tok: &str) -> (r: bool)
    ensures
        r == spec_seg_matches(*seg, tok@),
{
    match seg {
        PathSeg::Lit(s) => str_eq(tok, s.as_str()),
        PathSeg::Param(_) => !tok.is_empty() && all_param_chars(tok),
    }
}

pub fn template_matches(segs: &Vec<PathSeg>, target: &str) -> (r: bool)
    ensures
        r == spec_template_matches(segs@, target@),
{
    let toks = split_char_exec(target, '/');
    let ghost toks_spec = split_char(target@, '/');
    if toks.len() - 1 != segs.len() {
        return false;
    }
    if !toks[0].as_str().is_empty() {
        proof {
            assert(toks_spec[0] == toks@[0]@);
        }
        return false;
    }
    proof {
        assert(toks_spec[0] == toks@[0]@);
        assert(toks_spec[0] =~= Seq::<char>::empty());
    }
    let mut i: usize = 1;
    while i < toks.len()
        invariant
            toks_spec == split_char(target@, '/'),
            strs_view(toks@) == toks_spec,
            toks@.len() == segs@.len() + 1,
            toks_spec[0] == Seq::<char>::empty(),
            1 <= i <= toks@.len(),
            forall|j: int| 1 <= j < i ==> spec_seg_matches(#[trigger] segs@[j - 1], toks_spec[j]),
        decreases toks@.len() - i,
    {
        if !seg_matches(&segs[i - 1], toks[i].as_str()) {
            proof {
                assert(toks_spec[i as int] == toks@[i as int]@);
            }
            return false;
        }
        proof {
            assert(toks_spec[i as int] == toks@[i as int]@);
        }
        i += 1;
    }
    proof {
        assert(toks_spec[0] == toks@[0]@);
    }
    true
}

// ---------- keys ----------

pub open spec fn spec_key_literal_matches(k: RouteKey, target: Seq<char>) -> bool {
    match k {
        RouteKey::Literal(s) => s@ == target,
        RouteKey::Template(_) => false,
    }
}

pub open spec fn spec_key_template_matches(k: RouteKey, target: Seq<char>) -> bool {
    match k {
        RouteKey::Literal(_) => false,
        RouteKey::Template(segs) => spec_template_matches(segs@, target),
    }
}

/// Whether two keys occupy the same place in the table. Literal keys
/// coincide by their text; templates coincide by structure — literal
/// segments by text, placeholders by position, their names immaterial.
pub open spec fn spec_template_same(a: Seq<PathSeg>, b: Seq<PathSeg>) -> bool {
    &&& a.len() == b.len()
    &&& forall|i: int|
        0 <= i < a.len() ==> (match (#[trigger] a[i], #[trigger] b[i]) {
            (PathSeg::Lit(x), PathSeg::Lit(y)) => x@ == y@,
            (PathSeg::Param(_), PathSeg::Param(_)) => true,
            _ => false,
        })
}

pub open spec fn spec_same_key(a: RouteKey, b: RouteKey) -> bool {
    match (a, b) {
        (RouteKey::Literal(x), RouteKey::Literal(y)) => x@ == y@,
        (RouteKey::Template(x), RouteKey::Template(y)) => spec_template_same(x@, y@),
        _ => false,
    }
}

// ---------- method maps ----------

/// Index of the first binding for `m`, or -1.
pub open spec fn spec_find_method<H>(hs: Seq<(HttpRequestMethod, H)>, m: HttpRequestMethod) -> int
    decreases hs.len(),
{
    if hs.len() == 0 {
        -1
    } else if hs[0].0 == m {
        0
    } else if spec_find_method(hs.drop_first(), m) == -1 {
        -1
    } else {
        1 + spec_find_method(hs.drop_first(), m)
    }
}

pub proof fn lemma_find_method<H>(hs: Seq<(HttpRequestMethod, H)>, m: HttpRequestMethod)
    ensures
        spec_find_method(hs, m) == -1 ==> forall|j: int| 0 <= j < hs.len() ==> hs[j].0 != m,
        spec_find_method(hs, m) != -1 ==> 0 <= spec_find_method(hs, m) < hs.len() && hs[
            spec_find_method(hs, m)
        ].0 == m && forall|j: int| 0 <= j < spec_find_method(hs, m) ==> hs[j].0 != m,
    decreases hs.len(),
{
    if hs.len() > 0 && hs[0].0 != m {
        lemma_find_method(hs.drop_first(), m);
        let r = spec_find_method(hs.drop_first(), m);
        if r == -1 {
            assert forall|j: int| 0 <= j < hs.len() implies hs[j].0 != m by {
                if j > 0 {
                    assert(hs.drop_first()[j - 1] == hs[j]);
                }
            }
        } else {
            assert(hs[spec_find_method(hs, m)] == hs.drop_first()[r]);
            assert forall|j: int| 0 <= j < spec_find_method(hs, m) implies hs[j].0 != m by {
                if j > 0 {
                    assert(hs.drop_first()[j - 1] == hs[j]);
                }
            }
        }
    }
}

/// The handler a route binds to a method, if any.
pub open spec fn spec_method_lookup<H>(r: Route<H>, m: HttpRequestMethod) -> Option<H> {
    let i = spec_find_method(r.handlers@, m);
    if i == -1 {
        Option::None
    } else {
        Option::Some(r.handlers@[i].1)
    }
}

// ---------- route scanning ----------

/// Index of the first route whose key is the literal `target`, or -1.
pub open spec fn spec_find_literal<H>(rs: Seq<(RouteKey, Route<H>)>, target: Seq<char>) -> int
    decreases rs.len(),
{
    if rs.len() == 0 {
        -1
    } else if spec_key_literal_matches(rs[0].0, target) {
        0
    } else if spec_find_literal(rs.drop_first(), target) == -1 {
        -1
    } else {
        1 + spec_find_literal(rs.drop_first(), target)
    }
}

/// Index of the first route whose template matches `target`, or -1.
pub open spec fn spec_find_template<H>(rs: Seq<(RouteKey, Route<H>)>, target: Seq<char>) -> int
    decreases rs.len(),
{
    if rs.len() == 0 {
        -1
    } else if spec_key_template_matches(rs[0].0, target) {
        0
    } else if spec_find_template(rs.drop_first(), target) == -1 {
        -1
    } else {
        1 + spec_find_template(rs.drop_first(), target)
    }
}

pub proof fn lemma_find_literal<H>(rs: Seq<(RouteKey, Route<H>)>, target: Seq<char>)
    ensures
        spec_find_literal(rs, target) == -1 ==> forall|j: int|
            0 <= j < rs.len() ==> !spec_key_literal_matches(#[trigger] rs[j].0, target),
        spec_find_literal(rs, target) != -1 ==> 0 <= spec_find_literal(rs, target) < rs.len()
            && spec_key_literal_matches(rs[spec_find_literal(rs, target)].0, target) && forall|
            j: int,
        |
            0 <= j < spec_find_literal(rs, target) ==> !spec_key_literal_matches(
                #[trigger] rs[j].0,
                target,
            ),
    decreases rs.len(),
{
    if rs.len() > 0 && !spec_key_literal_matches(rs[0].0, target) {
        lemma_find_literal(rs.drop_first(), target);
        let r = spec_find_literal(rs.drop_first(), target);
        if r == -1 {
            assert forall|j: int|
                0 <= j < rs.len() implies !spec_key_literal_matches(
                #[trigger] rs[j].0,
                target,
            ) by {
                if j > 0 {
                    assert(rs.drop_first()[j - 1] == rs[j]);
                }
            }
        } else {
            assert(rs[spec_find_literal(rs, target)] == rs.drop_first()[r]);
            assert forall|j: int|
                0 <= j < spec_find_literal(rs, target) implies !spec_key_literal_matches(
                #[trigger] rs[j].0,
                target,
            ) by {
                if j > 0 {
                    assert(rs.drop_first()[j - 1] == rs[j]);
                }
            }
        }
    }
}

pub proof fn lemma_find_template<H>(rs: Seq<(RouteKey, Route<H>)>, target: Seq<char>)
    ensures
        spec_find_template(rs, target) == -1 ==> forall|j: int|
            0 <= j < rs.len() ==> !spec_key_template_matches(#[trigger] rs[j].0, target),
        spec_find_template(rs, target) != -1 ==> 0 <= spec_find_template(rs, target) < rs.len()
            && spec_key_template_matches(rs[spec_find_template(rs, target)].0, target) && forall|
            j: int,
        |
            0 <= j < spec_find_template(rs, target) ==> !spec_key_template_matches(
                #[trigger] rs[j].0,
                target,
            ),
    decreases rs.len(),
{
    if rs.len() > 0 && !spec_key_template_matches(rs[0].0, target) {
        lemma_find_template(rs.drop_first(), target);
        let r = spec_find_template(rs.drop_first(), target);
        if r == -1 {
            assert forall|j: int|
                0 <= j < rs.len() implies !spec_key_template_matches(
                #[trigger] rs[j].0,
                target,
            ) by {
                if j > 0 {
                    assert(rs.drop_first()[j - 1] == rs[j]);
                }
            }
        } else {
            assert(rs[spec_find_template(rs, target)] == rs.drop_first()[r]);
            assert forall|j: int|
                0 <= j < spec_find_template(rs, target) implies !spec_key_template_matches(
                #[trigger] rs[j].0,
                target,
            ) by {
                if j > 0 {
                    assert(rs.drop_first()[j - 1] == rs[j]);
                }
            }
        }
    }
}

/// The handler resolved for a method and target: the unique literal match
/// if the target is a registered literal path, else the first matching
/// template in registration order, else nothing.
pub open spec fn spec_lookup<H>(
    rs: Seq<(RouteKey, Route<H>)>,
    m: HttpRequestMethod,
    target: Seq<char>,
) -> Option<H> {
    let li = spec_find_literal(rs, target);
    if li != -1 {
        spec_method_lookup(rs[li].1, m)
    } else {
        let ti = spec_find_template(rs, target);
        if ti != -1 {
            spec_method_lookup(rs[ti].1, m)
        } else {
            Option::None
        }
    }
}

// ---------- template parameter lists ----------

/// The (1-based position, name) pairs a template declares, in order.
pub open spec fn spec_template_params(segs: Seq<PathSeg>) -> Seq<(int, Seq<char>)>
    decreases segs.len(),
{
    if segs.len() == 0 {
        Seq::empty()
    } else {
        let rest = spec_template_params(segs.drop_last());
        match segs.last() {
            PathSeg::Param(nm) => rest.push((segs.len() as int, nm@)),
            PathSeg::Lit(_) => rest,
        }
    }
}

/// The view of a stored parameter list.
pub open spec fn params_view(pp: Seq<(usize, String)>) -> Seq<(int, Seq<char>)> {
    pp.map_values(|p: (usize, String)| (p.0 as int, p.1@))
}

/// Every declared parameter names a placeholder segment in range.
pub proof fn lemma_template_params_bounds(segs: Seq<PathSeg>)
    ensures
        forall|j: int|
            0 <= j < spec_template_params(segs).len() ==> 1 <= (
            #[trigger] spec_template_params(segs)[j]).0 <= segs.len() && (segs[
                spec_template_params(segs)[j].0 - 1
            ] matches PathSeg::Param(nm) && nm@ == spec_template_params(segs)[j].1),
    decreases segs.len(),
{
    if segs.len() > 0 {
        lemma_template_params_bounds(segs.drop_last());
        assert(forall|i: int| 0 <= i < segs.len() - 1 ==> segs.drop_last()[i] == segs[i]);
    }
}

// ---------- the route table ----------

impl<H> Route<H> {
    pub open spec fn wf_methods(&self) -> bool {
        forall|i: int, j: int|
            0 <= i < j < self.handlers@.len() ==> self.handlers@[i].0 != self.handlers@[j].0
    }

    pub fn new(method: HttpRequestMethod, handler: H) -> (r: Route<H>)
        ensures
            r.handlers@ == seq![(method, handler)],
            r.path_params@ == Seq::<(usize, String)>::empty(),
            r.wf_methods(),
    {
        let mut handlers: Vec<(HttpRequestMethod, H)> = Vec::new();
        handlers.push((method, handler));
        let r = Route { handlers, path_params: Vec::new() };
        proof {
            assert(r.handlers@ =~= seq![(method, handler)]);
            assert(r.path_params@ =~= Seq::<(usize, String)>::empty());
        }
        r
    }

    pub fn get_path_params(&self) -> (r: &Vec<(usize, String)>)
        ensures
            r == &self.path_params,
    {
        &self.path_params
    }
}

/// What a well-formed table entry looks like: a literal key is normalized
/// and declares no parameters; a template key has at least one segment,
/// at least one placeholder, and declares exactly its placeholders.
pub open spec fn spec_entry_wf<H>(entry: (RouteKey, Route<H>)) -> bool {
    &&& entry.1.wf_methods()
    &&& match entry.0 {
        RouteKey::Literal(s) => spec_normalize_target(s@) == s@ && entry.1.path_params@.len() == 0,
        RouteKey::Template(segs) => {
            &&& segs@.len() >= 1
            &&& (exists|i: int| 0 <= i < segs@.len() && segs@[i] is Param)
            &&& params_view(entry.1.path_params@) == spec_template_params(segs@)
        },
    }
}

impl<H> HttpRouter<H> {
    pub open spec fn wf(&self) -> bool {
        &&& forall|i: int| 0 <= i < self.routes@.len() ==> spec_entry_wf(#[trigger] self.routes@[i])
        &&& forall|i: int, j: int|
            0 <= i < j < self.routes@.len() ==> !spec_same_key(
                self.routes@[i].0,
                self.routes@[j].0,
            )
    }

    pub fn new() -> (r: HttpRouter<H>)
        ensures
            r.routes@ == Seq::<(RouteKey, Route<H>)>::empty(),
            r.wf(),
    {
        let r = HttpRouter { routes: Vec::new() };
        proof {
            assert(r.routes@ =~= Seq::<(RouteKey, Route<H>)>::empty());
        }
        r
    }

    pub fn get_routes(&self) -> (r: &Vec<(RouteKey, Route<H>)>)
        ensures
            r == &self.routes,
    {
        &self.routes
    }

    /// Resolve a request against the table: exact literal match first,
    /// then templates in registration order, then nothing.
    pub fn get_handler(&self, req: &HttpRequest) -> (r: Option<&H>)
        ensures
            match spec_lookup(self.routes@, req.method, req.target@) {
                Option::Some(h) => r matches Option::Some(rh) && *rh == h,
                Option::None => r is None,
            },
    {
        proof {
            lemma_find_literal(self.routes@, req.target@);
            lemma_find_template(self.routes@, req.target@);
        }
        let n = self.routes.len();
        let mut i: usize = 0;
        while i < n
            invariant
                n == self.routes@.len(),
                i <= n,
                forall|j: int|
                    0 <= j < i ==> !spec_key_literal_matches(
                        #[trigger] self.routes@[j].0,
                        req.target@,
                    ),
            decreases n - i,
        {
            let is_match = match &self.routes[i].0 {
                RouteKey::Literal(s) => str_eq(s.as_str(), req.target.as_str()),
                RouteKey::Template(_) => false,
            };
            if is_match {
                proof {
                    lemma_find_literal(self.routes@, req.target@);
                    assert(spec_find_literal(self.routes@, req.target@) == i);
                }
                return self.method_handler(i, req.method);
            }
            i += 1;
        }
        let mut t: usize = 0;
        while t < n
            invariant
                n == self.routes@.len(),
                t <= n,
                spec_find_literal(self.routes@, req.target@) == -1,
                forall|j: int|
                    0 <= j < t ==> !spec_key_template_matches(
                        #[trigger] self.routes@[j].0,
                        req.target@,
                    ),
            decreases n - t,
        {
            let is_match = match &self.routes[t].0 {
                RouteKey::Literal(_) => false,
                RouteKey::Template(segs) => template_matches(segs, req.target.as_str()),
            };
            if is_match {
                proof {
                    lemma_find_template(self.routes@, req.target@);
                    assert(spec_find_template(self.routes@, req.target@) == t);
                }
                return self.method_handler(t, req.method);
            }
            t += 1;
        }
        proof {
            lemma_find_template(self.routes@, req.target@);
        }
        None
    }

    /// The handler the route at `i` binds to `m`, if any.
    fn method_handler(&self, i: usize, m: HttpRequestMethod) -> (r: Option<&H>)
        requires
            i < self.routes@.len(),
        ensures
            match spec_method_lookup(self.routes@[i as int].1, m) {
                Option::Some(h) => r matches Option::Some(rh) && *rh == h,
                Option::None => r is None,
            },
    {
        let hs = &self.routes[i].1.handlers;
        proof {
            lemma_find_method(hs@, m);
        }
        let n = hs.len();
        let mut j: usize = 0;
        while j < n
            invariant
                n == hs@.len(),
                j <= n,
                hs == &self.routes@[i as int].1.handlers,
                forall|x: int| 0 <= x < j ==> hs@[x].0 != m,
            decreases n - j,
        {
            if method_eq(&hs[j].0, &m) {
                proof {
                    lemma_find_method(hs@, m);
                    assert(spec_find_method(hs@, m) == j);
                }
                return Some(&hs[j].1);
            }
            j += 1;
        }
        None
    }
}

fn method_eq(a: &HttpRequestMethod, b: &HttpRequestMethod) -> (r: bool)
    ensures
        r == (a == b),
{
    *a == *b
}

// ---------- registration ----------

/// The non-empty pieces of a sequence of path tokens, in order.
pub open spec fn spec_nonempty(toks: Seq<Seq<char>>) -> Seq<Seq<char>>
    decreases toks.len(),
{
    if toks.len() == 0 {
        Seq::empty()
    } else if toks[0].len() > 0 {
        seq![toks[0]] + spec_nonempty(toks.drop_first())
    } else {
        spec_nonempty(toks.drop_first())
    }
}

proof fn lemma_nonempty_snoc(toks: Seq<Seq<char>>, x: Seq<char>)
    ensures
        spec_nonempty(toks.push(x)) == spec_nonempty(toks) + if x.len() > 0 {
            seq![x]
        } else {
            Seq::<Seq<char>>::empty()
        },
    decreases toks.len(),
{
    let tail: Seq<Seq<char>> = if x.len() > 0 {
        seq![x]
    } else {
        Seq::<Seq<char>>::empty()
    };
    if toks.len() == 0 {
        assert(toks.push(x)[0] == x);
        assert(toks.push(x).drop_first() =~= Seq::<Seq<char>>::empty());
        assert(spec_nonempty(toks.push(x).drop_first()) == Seq::<Seq<char>>::empty());
        assert(spec_nonempty(toks) == Seq::<Seq<char>>::empty());
        if x.len() > 0 {
            assert(spec_nonempty(toks.push(x)) == seq![toks.push(x)[0]] + spec_nonempty(
                toks.push(x).drop_first(),
            ));
            assert(spec_nonempty(toks.push(x)) =~= spec_nonempty(toks) + tail);
        } else {
            assert(spec_nonempty(toks.push(x)) == spec_nonempty(toks.push(x).drop_first()));
            assert(spec_nonempty(toks.push(x)) =~= spec_nonempty(toks) + tail);
        }
    } else {
        assert(toks.push(x).drop_first() =~= toks.drop_first().push(x));
        lemma_nonempty_snoc(toks.drop_first(), x);
        assert(toks.push(x)[0] == toks[0]);
        if toks[0].len() > 0 {
            assert(spec_nonempty(toks.push(x)) =~= spec_nonempty(toks) + tail);
        } else {
            assert(spec_nonempty(toks.push(x)) =~= spec_nonempty(toks) + tail);
        }
    }
}

/// The non-empty segments of a registered path, after trimming.
pub open spec fn spec_route_tokens(path: Seq<char>) -> Seq<Seq<char>> {
    spec_nonempty(split_char(spec_trim(path), '/'))
}

/// A `{name}` placeholder token.
pub open spec fn spec_is_param_token(t: Seq<char>) -> bool {
    t.len() >= 2 && t[0] == '{' && t.last() == '}'
}

pub open spec fn spec_has_param_token(toks: Seq<Seq<char>>) -> bool {
    exists|i: int| 0 <= i < toks.len() && spec_is_param_token(#[trigger] toks[i])
}

/// What compiling one token yields: a placeholder becomes a parameter
/// segment named by the text between the braces, anything else a literal.
pub open spec fn spec_seg_compiled_from(seg: PathSeg, t: Seq<char>) -> bool {
    if spec_is_param_token(t) {
        seg matches PathSeg::Param(nm) && nm@ == t.subrange(1, t.len() - 1)
    } else {
        seg matches PathSeg::Lit(s) && s@ == t
    }
}

pub open spec fn spec_segs_compiled_from(segs: Seq<PathSeg>, toks: Seq<Seq<char>>) -> bool {
    segs.len() == toks.len() && forall|i: int|
        0 <= i < segs.len() ==> spec_seg_compiled_from(#[trigger] segs[i], toks[i])
}

/// The table entry a registration leaves behind.
pub open spec fn spec_registered<H>(
    entry: (RouteKey, Route<H>),
    m: HttpRequestMethod,
    h: H,
    path: Seq<char>,
) -> bool {
    let toks = spec_route_tokens(path);
    &&& spec_method_get(entry.1.handlers@, m) == Option::Some(h)
    &&& (spec_has_param_token(toks) ==> (entry.0 matches RouteKey::Template(segs)
        && spec_segs_compiled_from(segs@, toks)))
    &&& (!spec_has_param_token(toks) ==> (entry.0 matches RouteKey::Literal(s) && s@
        == spec_normalize_target(spec_trim(path))))
}

/// How the table changes under one registration: one entry is updated in
/// place under its key, or one new entry is appended.
pub open spec fn spec_register_post<H>(
    old_rs: Seq<(RouteKey, Route<H>)>,
    new_rs: Seq<(RouteKey, Route<H>)>,
    m: HttpRequestMethod,
    path: Seq<char>,
    h: H,
) -> bool {
    ||| (new_rs.len() == old_rs.len() + 1 && new_rs.take(old_rs.len() as int) == old_rs
        && spec_registered(new_rs.last(), m, h, path))
    ||| (new_rs.len() == old_rs.len() && exists|i: int|
        0 <= i < new_rs.len() && #[trigger] spec_registered(new_rs[i], m, h, path)
            && spec_same_key(new_rs[i].0, old_rs[i].0) && (forall|j: int|
            0 <= j < new_rs.len() && j != i ==> new_rs[j] == old_rs[j]))
}

/// The handler a method map binds to `m`, if any.
pub open spec fn spec_method_get<H>(hs: Seq<(HttpRequestMethod, H)>, m: HttpRequestMethod) -> Option<
    H,
> {
    let i = spec_find_method(hs, m);
    if i == -1 {
        Option::None
    } else {
        Option::Some(hs[i].1)
    }
}

/// Bind `m` to `h`: replace in place or append.
pub open spec fn spec_method_insert<H>(
    hs: Seq<(HttpRequestMethod, H)>,
    m: HttpRequestMethod,
    h: H,
) -> Seq<(HttpRequestMethod, H)> {
    let i = spec_find_method(hs, m);
    if i == -1 {
        hs.push((m, h))
    } else {
        hs.update(i, (m, h))
    }
}

proof fn lemma_method_get_step<H>(hs: Seq<(HttpRequestMethod, H)>, m2: HttpRequestMethod)
    requires
        hs.len() > 0,
        hs[0].0 != m2,
    ensures
        spec_method_get(hs, m2) == spec_method_get(hs.drop_first(), m2),
{
    lemma_find_method(hs.drop_first(), m2);
    let r = spec_find_method(hs.drop_first(), m2);
    if r != -1 {
        assert(hs[1 + r] == hs.drop_first()[r]);
    }
}

/// What a method lookup returns after one insertion.
pub proof fn lemma_method_get_insert<H>(
    hs: Seq<(HttpRequestMethod, H)>,
    m: HttpRequestMethod,
    h: H,
    m2: HttpRequestMethod,
)
    ensures
        spec_method_get(spec_method_insert(hs, m, h), m2) == if m2 == m {
            Option::Some(h)
        } else {
            spec_method_get(hs, m2)
        },
    decreases hs.len(),
{
    lemma_find_method(hs, m);
    let mm = spec_method_insert(hs, m, h);
    if hs.len() == 0 {
        assert(mm =~= seq![(m, h)]);
        assert(mm[0].0 == m);
        if m2 != m {
            lemma_method_get_step(mm, m2);
            assert(mm.drop_first() =~= Seq::<(HttpRequestMethod, H)>::empty());
        }
    } else if hs[0].0 == m {
        assert(spec_find_method(hs, m) == 0);
        assert(mm =~= hs.update(0, (m, h)));
        assert(mm[0].0 == m);
        if m2 != m {
            lemma_method_get_step(mm, m2);
            lemma_method_get_step(hs, m2);
            assert(mm.drop_first() =~= hs.drop_first());
        }
    } else {
        let i = spec_find_method(hs, m);
        assert(mm.len() > 0 && mm[0] == hs[0]) by {
            if i == -1 {
            } else {
                assert(i >= 1);
            }
        }
        assert(mm.drop_first() =~= spec_method_insert(hs.drop_first(), m, h)) by {
            if i == -1 {
                lemma_find_method(hs.drop_first(), m);
                assert(hs.push((m, h)).drop_first() =~= hs.drop_first().push((m, h)));
            } else {
                assert(i >= 1);
                assert(spec_find_method(hs.drop_first(), m) == i - 1);
                assert(hs.update(i, (m, h)).drop_first() =~= hs.drop_first().update(
                    i - 1,
                    (m, h),
                ));
            }
        }
        lemma_method_get_insert(hs.drop_first(), m, h, m2);
        if m2 == hs[0].0 {
            assert(spec_find_method(mm, m2) == 0);
            assert(spec_find_method(hs, m2) == 0);
        } else {
            lemma_method_get_step(mm, m2);
            lemma_method_get_step(hs, m2);
        }
    }
}

/// An insertion keeps the method keys pairwise distinct.
proof fn lemma_method_insert_wf<H>(hs: Seq<(HttpRequestMethod, H)>, m: HttpRequestMethod, h: H)
    requires
        forall|i: int, j: int| 0 <= i < j < hs.len() ==> hs[i].0 != hs[j].0,
    ensures
        forall|i: int, j: int|
            0 <= i < j < spec_method_insert(hs, m, h).len() ==> spec_method_insert(hs, m, h)[i].0
                != spec_method_insert(hs, m, h)[j].0,
{
    lemma_find_method(hs, m);
    let i = spec_find_method(hs, m);
    if i == -1 {
        let mm = hs.push((m, h));
        assert forall|a: int, b: int| 0 <= a < b < mm.len() implies mm[a].0 != mm[b].0 by {
            if b == hs.len() {
                assert(mm[a] == hs[a]);
            }
        }
    } else {
        let mm = hs.update(i, (m, h));
        assert forall|a: int, b: int| 0 <= a < b < mm.len() implies mm[a].0 != mm[b].0 by {
            if a != i && b != i {
                assert(mm[a] == hs[a] && mm[b] == hs[b]);
            }
        }
    }
}

fn method_map_insert<H>(hs: &mut Vec<(HttpRequestMethod, H)>, m: HttpRequestMethod, h: H)
    ensures
        final(hs)@ == spec_method_insert(old(hs)@, m, h),
{
    proof {
        lemma_find_method(old(hs)@, m);
    }
    let ghost orig = *old(hs);
    let n = hs.len();
    let mut i: usize = 0;
    while i < n
        invariant
            *hs == orig,
            orig == *old(hs),
            n == hs@.len(),
            i <= n,
            forall|j: int| 0 <= j < i ==> hs@[j].0 != m,
        decreases n - i,
    {
        if method_eq(&hs[i].0, &m) {
            proof {
                lemma_find_method(hs@, m);
                assert(spec_find_method(hs@, m) == i);
            }
            hs.set(i, (m, h));
            return ;
        }
        i += 1;
    }
    proof {
        lemma_find_method(hs@, m);
        assert(spec_find_method(hs@, m) == -1);
    }
    hs.push((m, h));
}

/// Structural template identity is symmetric and transitive.
proof fn lemma_template_same_trans(a: Seq<PathSeg>, b: Seq<PathSeg>, c: Seq<PathSeg>)
    requires
        spec_template_same(a, b),
    ensures
        spec_template_same(b, a),
        spec_template_same(a, c) ==> spec_template_same(b, c),
{
    assert forall|i: int|
        0 <= i < b.len() implies (match (#[trigger] b[i], #[trigger] a[i]) {
        (PathSeg::Lit(x), PathSeg::Lit(y)) => x@ == y@,
        (PathSeg::Param(_), PathSeg::Param(_)) => true,
        _ => false,
    }) by {
        assert(match (a[i], b[i]) {
            (PathSeg::Lit(x), PathSeg::Lit(y)) => x@ == y@,
            (PathSeg::Param(_), PathSeg::Param(_)) => true,
            _ => false,
        });
    }
    if spec_template_same(a, c) {
        assert forall|i: int|
            0 <= i < b.len() implies (match (#[trigger] b[i], #[trigger] c[i]) {
            (PathSeg::Lit(x), PathSeg::Lit(y)) => x@ == y@,
            (PathSeg::Param(_), PathSeg::Param(_)) => true,
            _ => false,
        }) by {
            assert(match (a[i], b[i]) {
                (PathSeg::Lit(x), PathSeg::Lit(y)) => x@ == y@,
                (PathSeg::Param(_), PathSeg::Param(_)) => true,
                _ => false,
            });
            assert(match (a[i], c[i]) {
                (PathSeg::Lit(x), PathSeg::Lit(y)) => x@ == y@,
                (PathSeg::Param(_), PathSeg::Param(_)) => true,
                _ => false,
            });
        }
    }
}

fn is_param_token(t: &str) -> (r: bool)
    ensures
        r == spec_is_param_token(t@),
{
    let n = t.unicode_len();
    n >= 2 && t.get_char(0) == '{' && t.get_char(n - 1) == '}'
}

fn template_same_exec(a: &Vec<PathSeg>, b: &Vec<PathSeg>) -> (r: bool)
    ensures
        r == spec_template_same(a@, b@),
{
    if a.len() != b.len() {
        return false;
    }
    let n = a.len();
    let mut i: usize = 0;
    while i < n
        invariant
            n == a@.len() == b@.len(),
            i <= n,
            forall|j: int|
                0 <= j < i ==> (match (#[trigger] a@[j], #[trigger] b@[j]) {
                    (PathSeg::Lit(x), PathSeg::Lit(y)) => x@ == y@,
                    (PathSeg::Param(_), PathSeg::Param(_)) => true,
                    _ => false,
                }),
        decreases n - i,
    {
        let same = match (&a[i], &b[i]) {
            (PathSeg::Lit(x), PathSeg::Lit(y)) => str_eq(x.as_str(), y.as_str()),
            (PathSeg::Param(_), PathSeg::Param(_)) => true,
            _ => false,
        };
        if !same {
            return false;
        }
        i += 1;
    }
    true
}

impl<H> HttpRouter<H> {
    /// Compile the path and bind the handler: a path with no `{name}`
    /// segment becomes (or extends) a literal route under the normalized
    /// path; one with placeholders becomes (or extends) a template route.
    pub fn register(&mut self, method: HttpRequestMethod, path: &str, handler: H)
        requires
            old(self).wf(),
        ensures
            final(self).wf(),
            spec_register_post(old(self).routes@, final(self).routes@, method, path@, handler),
    {
        let trimmed = trim(path);
        let pieces = split_char_exec(trimmed.as_str(), '/');
        let ghost pieces_spec = strs_view(pieces@);
        let mut toks: Vec<String> = Vec::new();
        let np = pieces.len();
        let mut pi: usize = 0;
        while pi < np
            invariant
                np == pieces@.len(),
                pi <= np,
                pieces_spec == strs_view(pieces@),
                strs_view(toks@) == spec_nonempty(pieces_spec.take(pi as int)),
            decreases np - pi,
        {
            proof {
                assert(pieces_spec.take(pi + 1) =~= pieces_spec.take(pi as int).push(
                    pieces_spec[pi as int],
                ));
                lemma_nonempty_snoc(pieces_spec.take(pi as int), pieces_spec[pi as int]);
                assert(pieces_spec[pi as int] == pieces@[pi as int]@);
            }
            if !pieces[pi].as_str().is_empty() {
                let piece = pieces[pi].clone();
                toks.push(piece);
                proof {
                    assert(strs_view(toks@) =~= spec_nonempty(pieces_spec.take(pi + 1)));
                }
            } else {
                proof {
                    assert(strs_view(toks@) =~= spec_nonempty(pieces_spec.take(pi + 1)));
                }
            }
            pi += 1;
        }
        proof {
            assert(pieces_spec.take(np as int) =~= pieces_spec);
            assert(strs_view(toks@) == spec_route_tokens(path@));
        }
        let ghost toks_spec = strs_view(toks@);
        let nt = toks.len();
        let mut has = false;
        let mut hi: usize = 0;
        while hi < nt
            invariant
                nt == toks@.len(),
                hi <= nt,
                toks_spec == strs_view(toks@),
                has == spec_has_param_token(toks_spec.take(hi as int)),
            decreases nt - hi,
        {
            proof {
                assert(toks_spec.take(hi + 1) =~= toks_spec.take(hi as int).push(
                    toks_spec[hi as int],
                ));
                assert(toks_spec[hi as int] == toks@[hi as int]@);
            }
            if is_param_token(toks[hi].as_str()) {
                has = true;
                proof {
                    assert(toks_spec.take(hi + 1)[hi as int] == toks_spec[hi as int]);
                }
            } else {
                proof {
                    if spec_has_param_token(toks_spec.take(hi + 1)) {
                        let w = choose|w: int|
                            0 <= w < hi + 1 && spec_is_param_token(
                                #[trigger] toks_spec.take(hi + 1)[w],
                            );
                        if w < hi {
                            assert(toks_spec.take(hi as int)[w] == toks_spec.take(hi + 1)[w]);
                        }
                    }
                }
            }
            hi += 1;
        }
        proof {
            assert(toks_spec.take(nt as int) =~= toks_spec);
        }
        if has {
            self.register_template(method, toks, handler, Ghost(path@));
        } else {
            self.register_literal(method, trimmed.as_str(), handler, Ghost(path@));
        }
    }

    pub fn get(&mut self, path: &str, handler: H)
        requires
            old(self).wf(),
        ensures
            final(self).wf(),
            spec_register_post(
                old(self).routes@,
                final(self).routes@,
                HttpRequestMethod::GET,
                path@,
                handler,
            ),
    {
        self.register(HttpRequestMethod::GET, path, handler);
    }

    pub fn post(&mut self, path: &str, handler: H)
        requires
            old(self).wf(),
        ensures
            final(self).wf(),
            spec_register_post(
                old(self).routes@,
                final(self).routes@,
                HttpRequestMethod::POST,
                path@,
                handler,
            ),
    {
        self.register(HttpRequestMethod::POST, path, handler);
    }

    pub fn patch(&mut self, path: &str, handler: H)
        requires
            old(self).wf(),
        ensures
            final(self).wf(),
            spec_register_post(
                old(self).routes@,
                final(self).routes@,
                HttpRequestMethod::PATCH,
                path@,
                handler,
            ),
    {
        self.register(HttpRequestMethod::PATCH, path, handler);
    }

    pub fn put(&mut self, path: &str, handler: H)
        requires
            old(self).wf(),
        ensures
            final(self).wf(),
            spec_register_post(
                old(self).routes@,
                final(self).routes@,
                HttpRequestMethod::PUT,
                path@,
                handler,
            ),
    {
        self.register(HttpRequestMethod::PUT, path, handler);
    }

    pub fn options(&mut self, path: &str, handler: H)
        requires
            old(self).wf(),
        ensures
            final(self).wf(),
            spec_register_post(
                old(self).routes@,
                final(self).routes@,
                HttpRequestMethod::OPTIONS,
                path@,
                handler,
            ),
    {
        self.register(HttpRequestMethod::OPTIONS, path, handler);
    }

    pub fn delete(&mut self, path: &str, handler: H)
        requires
            old(self).wf(),
        ensures
            final(self).wf(),
            spec_register_post(
                old(self).routes@,
                final(self).routes@,
                HttpRequestMethod::DELETE,
                path@,
                handler,
            ),
    {
        self.register(HttpRequestMethod::DELETE, path, handler);
    }

    fn register_literal(
        &mut self,
        method: HttpRequestMethod,
        trimmed: &str,
        handler: H,
        Ghost(path): Ghost<Seq<char>>,
    )
        requires
            old(self).wf(),
            trimmed@ == spec_trim(path),
            !spec_has_param_token(spec_route_tokens(path)),
        ensures
            final(self).wf(),
            spec_register_post(old(self).routes@, final(self).routes@, method, path, handler),
    {
        let key = normalize_target(trimmed);
        let ghost orig = *old(self);
        let n = self.routes.len();
        let mut i: usize = 0;
        while i < n
            invariant
                *self == orig,
                orig == *old(self),
                orig.wf(),
                n == self.routes@.len(),
                i <= n,
                key@ == spec_normalize_target(spec_trim(path)),
                !spec_has_param_token(spec_route_tokens(path)),
                forall|j: int|
                    0 <= j < i ==> !spec_key_literal_matches(#[trigger] self.routes@[j].0, key@),
            decreases n - i,
        {
            let hit = match &self.routes[i].0 {
                RouteKey::Literal(s) => str_eq(s.as_str(), key.as_str()),
                RouteKey::Template(_) => false,
            };
            if hit {
                let ghost old_entry = self.routes@[i as int];
                let (k, mut route) = self.routes.remove(i);
                method_map_insert(&mut route.handlers, method, handler);
                route.path_params = Vec::new();
                self.routes.insert(i, (k, route));
                proof {
                    let new_entry = self.routes@[i as int];
                    assert(self.routes@ =~= orig.routes@.update(i as int, new_entry));
                    assert(new_entry.0 == old_entry.0);
                    assert(new_entry.1.handlers@ == spec_method_insert(
                        old_entry.1.handlers@,
                        method,
                        handler,
                    ));
                    assert(new_entry.1.path_params@ =~= Seq::<(usize, String)>::empty());
                    lemma_method_get_insert(old_entry.1.handlers@, method, handler, method);
                    assert(spec_entry_wf(old_entry));
                    lemma_method_insert_wf(old_entry.1.handlers@, method, handler);
                    assert(spec_entry_wf(new_entry));
                    assert(spec_registered(new_entry, method, handler, path));
                    assert forall|a: int, b: int|
                        0 <= a < b < self.routes@.len() implies !spec_same_key(
                        self.routes@[a].0,
                        self.routes@[b].0,
                    ) by {
                        assert(self.routes@[a].0 == orig.routes@[a].0);
                        assert(self.routes@[b].0 == orig.routes@[b].0);
                    }
                    assert(self.wf());
                    assert forall|j: int|
                        0 <= j < self.routes@.len() && j != i implies self.routes@[j]
                        == orig.routes@[j] by {}
                    assert(spec_register_post(orig.routes@, self.routes@, method, path, handler));
                }
                return ;
            }
            i += 1;
        }
        let entry = (RouteKey::Literal(key), Route::new(method, handler));
        proof {
            lemma_normalize_idempotent(spec_trim(path));
            assert(spec_entry_wf(entry)) by {
                assert(entry.1.path_params@.len() == 0);
            }
            assert(spec_method_get(entry.1.handlers@, method) == Option::Some(handler)) by {
                assert(entry.1.handlers@[0].0 == method);
                assert(spec_find_method(entry.1.handlers@, method) == 0);
            }
            assert(spec_registered(entry, method, handler, path));
        }
        let ghost pre = self.routes@;
        self.routes.push(entry);
        proof {
            assert(self.routes@.take(pre.len() as int) =~= pre);
            assert(self.routes@.last() == entry);
            assert forall|a: int, b: int|
                0 <= a < b < self.routes@.len() implies !spec_same_key(
                self.routes@[a].0,
                self.routes@[b].0,
            ) by {
                if b < pre.len() {
                    assert(self.routes@[a] == pre[a] && self.routes@[b] == pre[b]);
                } else {
                    assert(self.routes@[a] == pre[a] && self.routes@[b] == entry);
                    assert(!spec_key_literal_matches(pre[a].0, key@));
                }
            }
            assert(self.wf());
            assert(spec_register_post(orig.routes@, self.routes@, method, path, handler));
        }
    }

    fn register_template(
        &mut self,
        method: HttpRequestMethod,
        toks: Vec<String>,
        handler: H,
        Ghost(path): Ghost<Seq<char>>,
    )
        requires
            old(self).wf(),
            strs_view(toks@) == spec_route_tokens(path),
            spec_has_param_token(spec_route_tokens(path)),
        ensures
            final(self).wf(),
            spec_register_post(old(self).routes@, final(self).routes@, method, path, handler),
    {
        let ghost toks_spec = strs_view(toks@);
        let mut segs: Vec<PathSeg> = Vec::new();
        let mut pp: Vec<(usize, String)> = Vec::new();
        let nt = toks.len();
        let mut i: usize = 0;
        while i < nt
            invariant
                nt == toks@.len(),
                toks_spec == strs_view(toks@),
                toks_spec == spec_route_tokens(path),
                i <= nt,
                segs@.len() == i,
                spec_segs_compiled_from(segs@, toks_spec.take(i as int)),
                params_view(pp@) == spec_template_params(segs@),
            decreases nt - i,
        {
            let ghost old_segs = segs@;
            proof {
                assert(toks_spec[i as int] == toks@[i as int]@);
                assert(toks_spec.take(i + 1) =~= toks_spec.take(i as int).push(
                    toks_spec[i as int],
                ));
            }
            if is_param_token(toks[i].as_str()) {
                let n = toks[i].as_str().unicode_len();
                let name = toks[i].as_str().substring_char(1, n - 1).to_owned();
                let name2 = name.clone();
                segs.push(PathSeg::Param(name));
                pp.push((i + 1, name2));
                proof {
                    assert(segs@.drop_last() =~= old_segs);
                    assert(segs@.last() == PathSeg::Param(name));
                    assert(params_view(pp@) =~= spec_template_params(segs@));
                    assert forall|j: int|
                        0 <= j < segs@.len() implies spec_seg_compiled_from(
                        #[trigger] segs@[j],
                        toks_spec.take(i + 1)[j],
                    ) by {
                        if j < i {
                            assert(segs@[j] == old_segs[j]);
                        }
                    }
                }
            } else {
                let lit = toks[i].clone();
                segs.push(PathSeg::Lit(lit));
                proof {
                    assert(segs@.drop_last() =~= old_segs);
                    assert(segs@.last() == PathSeg::Lit(lit));
                    assert(params_view(pp@) =~= spec_template_params(segs@));
                    assert forall|j: int|
                        0 <= j < segs@.len() implies spec_seg_compiled_from(
                        #[trigger] segs@[j],
                        toks_spec.take(i + 1)[j],
                    ) by {
                        if j < i {
                            assert(segs@[j] == old_segs[j]);
                        }
                    }
                }
            }
            i += 1;
        }
        proof {
            assert(toks_spec.take(nt as int) =~= toks_spec);
            assert(spec_segs_compiled_from(segs@, toks_spec));
            let w = choose|w: int| 0 <= w < toks_spec.len() && spec_is_param_token(toks_spec[w]);
            assert(spec_seg_compiled_from(segs@[w], toks_spec[w]));
            assert(segs@[w] is Param);
            assert(segs@.len() >= 1);
        }
        let ghost segs_spec = segs@;
        let ghost pp_spec = pp@;
        let ghost orig = *old(self);
        let n = self.routes.len();
        let mut ri: usize = 0;
        while ri < n
            invariant
                *self == orig,
                orig == *old(self),
                orig.wf(),
                n == self.routes@.len(),
                ri <= n,
                segs@ == segs_spec,
                pp@ == pp_spec,
                toks_spec == spec_route_tokens(path),
                spec_has_param_token(toks_spec),
                segs_spec.len() >= 1,
                exists|w: int| 0 <= w < segs_spec.len() && segs_spec[w] is Param,
                spec_segs_compiled_from(segs_spec, toks_spec),
                params_view(pp_spec) == spec_template_params(segs_spec),
                forall|j: int|
                    0 <= j < ri ==> !spec_same_key(
                        #[trigger] self.routes@[j].0,
                        RouteKey::Template(segs),
                    ),
            decreases n - ri,
        {
            let hit = match &self.routes[ri].0 {
                RouteKey::Literal(_) => false,
                RouteKey::Template(s2) => template_same_exec(&segs, s2),
            };
            if hit {
                let ghost old_entry = self.routes@[ri as int];
                let (_old_key, mut route) = self.routes.remove(ri);
                method_map_insert(&mut route.handlers, method, handler);
                route.path_params = pp;
                let ghost groute = route;
                let new_key = RouteKey::Template(segs);
                let ghost gkey = new_key;
                self.routes.insert(ri, (new_key, route));
                proof {
                    let new_entry = self.routes@[ri as int];
                    assert(new_entry == (gkey, groute));
                    assert(gkey matches RouteKey::Template(s) && s@ == segs_spec);
                    assert(self.routes@ =~= orig.routes@.update(ri as int, new_entry));
                    assert(new_entry.1.handlers@ == spec_method_insert(
                        old_entry.1.handlers@,
                        method,
                        handler,
                    ));
                    assert(new_entry.1.path_params@ == pp_spec);
                    lemma_method_get_insert(old_entry.1.handlers@, method, handler, method);
                    assert(spec_entry_wf(old_entry));
                    lemma_method_insert_wf(old_entry.1.handlers@, method, handler);
                    assert(spec_entry_wf(new_entry));
                    assert(spec_registered(new_entry, method, handler, path));
                    assert(spec_same_key(new_entry.0, old_entry.0));
                    assert forall|a: int, b: int|
                        0 <= a < b < self.routes@.len() implies !spec_same_key(
                        self.routes@[a].0,
                        self.routes@[b].0,
                    ) by {
                        let oa = orig.routes@[a].0;
                        let ob = orig.routes@[b].0;
                        assert(!spec_same_key(oa, ob));
                        if a == ri {
                            if spec_same_key(self.routes@[a].0, ob) {
                                assert(ob matches RouteKey::Template(c) ==> {
                                    &&& spec_template_same(segs_spec, c@)
                                });
                                match (old_entry.0, ob) {
                                    (RouteKey::Template(s2), RouteKey::Template(c)) => {
                                        lemma_template_same_trans(segs_spec, s2@, c@);
                                        assert(spec_template_same(s2@, c@));
                                    },
                                    _ => {},
                                }
                            }
                        } else if b == ri {
                            if spec_same_key(oa, self.routes@[b].0) {
                                match (oa, old_entry.0) {
                                    (RouteKey::Template(c), RouteKey::Template(s2)) => {
                                        lemma_template_same_trans(segs_spec, c@, s2@);
                                        lemma_template_same_trans(c@, segs_spec, s2@);
                                        assert(spec_template_same(c@, s2@));
                                    },
                                    _ => {},
                                }
                            }
                        } else {
                            assert(self.routes@[a].0 == oa && self.routes@[b].0 == ob);
                        }
                    }
                    assert(self.wf());
                    assert(spec_register_post(orig.routes@, self.routes@, method, path, handler));
                }
                return ;
            }
            ri += 1;
        }
        let entry = (RouteKey::Template(segs), Route::new_with_params(method, handler, pp));
        proof {
            assert(spec_entry_wf(entry));
            assert(spec_method_get(entry.1.handlers@, method) == Option::Some(handler)) by {
                assert(entry.1.handlers@[0].0 == method);
                assert(spec_find_method(entry.1.handlers@, method) == 0);
            }
            assert(spec_registered(entry, method, handler, path));
        }
        let ghost pre = self.routes@;
        self.routes.push(entry);
        proof {
            assert(self.routes@.take(pre.len() as int) =~= pre);
            assert(self.routes@.last() == entry);
            assert forall|a: int, b: int|
                0 <= a < b < self.routes@.len() implies !spec_same_key(
                self.routes@[a].0,
                self.routes@[b].0,
            ) by {
                if b < pre.len() {
                    assert(self.routes@[a] == pre[a] && self.routes@[b] == pre[b]);
                } else {
                    assert(self.routes@[a] == pre[a] && self.routes@[b] == entry);
                    assert(!spec_same_key(pre[a].0, RouteKey::Template(segs)));
                }
            }
            assert(self.wf());
            assert(spec_register_post(orig.routes@, self.routes@, method, path, handler));
        }
    }
}

proof fn lemma_normalize_idempotent(t: Seq<char>)
    ensures
        spec_normalize_target(spec_normalize_target(t)) == spec_normalize_target(t),
    decreases t.len(),
{
    if t.len() > 1 && t.last() == '/' {
        lemma_normalize_idempotent(t.drop_last());
    }
}

// ---------- path-parameter extraction ----------

/// The (name, matched segment) pairs a parameter list declares against a
/// target, in declaration order.
pub open spec fn spec_declared_pairs(pp: Seq<(usize, String)>, target: Seq<char>) -> Seq<
    (Seq<char>, Seq<char>),
> {
    let toks = split_char(target, '/');
    Seq::new(pp.len(), |j: int| (pp[j].1@, toks[pp[j].0 as int]))
}

/// The path parameters a target yields: those of the first matching
/// template, bound in declaration order with later duplicates winning;
/// empty when no template matches.
pub open spec fn spec_params_of<H>(
    rs: Seq<(RouteKey, Route<H>)>,
    target: Seq<char>,
) -> Seq<(Seq<char>, Seq<char>)> {
    let ti = spec_find_template(rs, target);
    if ti == -1 {
        Seq::empty()
    } else {
        crate::headers::spec_insert_all(
            Seq::empty(),
            spec_declared_pairs(rs[ti].1.path_params@, target),
        )
    }
}

// ---------- stated laws of routing ----------

/// Literal-match precedence: when some route's key is the literal target,
/// lookup resolves through that route and through its method map alone —
/// never through a template — even if a template also matches the target.
pub proof fn theorem_literal_precedence<H>(
    rs: Seq<(RouteKey, Route<H>)>,
    m: HttpRequestMethod,
    target: Seq<char>,
)
    requires
        spec_find_literal(rs, target) != -1,
    ensures
        spec_lookup(rs, m, target) == spec_method_get(
            rs[spec_find_literal(rs, target)].1.handlers@,
            m,
        ),
{
}

/// Every registered literal route resolves exactly: if entry `i` carries
/// the literal key `target` and binds `m` to `h`, a lookup of `m` and
/// `target` returns `h`, whatever else the table holds.
pub proof fn theorem_literal_route_resolved<H>(
    r: &HttpRouter<H>,
    i: int,
    target: Seq<char>,
    m: HttpRequestMethod,
    h: H,
)
    requires
        r.wf(),
        0 <= i < r.routes@.len(),
        spec_key_literal_matches(r.routes@[i].0, target),
        spec_method_get(r.routes@[i].1.handlers@, m) == Option::Some(h),
    ensures
        spec_lookup(r.routes@, m, target) == Option::Some(h),
{
    lemma_find_literal(r.routes@, target);
    let li = spec_find_literal(r.routes@, target);
    assert(li != -1);
    if li != i {
        assert(spec_same_key(r.routes@[li].0, r.routes@[i].0));
        if li < i {
            assert(!spec_same_key(r.routes@[li].0, r.routes@[i].0));
        } else {
            assert(!spec_same_key(r.routes@[i].0, r.routes@[li].0));
            assert(spec_same_key(r.routes@[i].0, r.routes@[li].0));
        }
    }
    assert(li == i);
}

/// Registering a literal path binds it: as soon as a registration of a
/// path with no placeholder has happened, looking up its method and its
/// normalized path returns exactly the registered handler.
pub proof fn theorem_register_literal_lookup<H>(
    r: &HttpRouter<H>,
    old_rs: Seq<(RouteKey, Route<H>)>,
    m: HttpRequestMethod,
    path: Seq<char>,
    h: H,
)
    requires
        r.wf(),
        spec_register_post(old_rs, r.routes@, m, path, h),
        !spec_has_param_token(spec_route_tokens(path)),
    ensures
        spec_lookup(r.routes@, m, spec_normalize_target(spec_trim(path))) == Option::Some(h),
{
    let target = spec_normalize_target(spec_trim(path));
    let rs = r.routes@;
    if rs.len() == old_rs.len() + 1 && rs.take(old_rs.len() as int) == old_rs && spec_registered(
        rs.last(),
        m,
        h,
        path,
    ) {
        let i = rs.len() - 1;
        assert(spec_key_literal_matches(rs[i].0, target));
        assert(spec_method_get(rs[i].1.handlers@, m) == Option::Some(h));
        theorem_literal_route_resolved(r, i, target, m, h);
    } else {
        let i = choose|i: int|
            0 <= i < rs.len() && #[trigger] spec_registered(rs[i], m, h, path) && spec_same_key(
                rs[i].0,
                old_rs[i].0,
            ) && (forall|j: int| 0 <= j < rs.len() && j != i ==> rs[j] == old_rs[j]);
        assert(spec_key_literal_matches(rs[i].0, target));
        assert(spec_method_get(rs[i].1.handlers@, m) == Option::Some(h));
        theorem_literal_route_resolved(r, i, target, m, h);
    }
}

/// A matched placeholder segment is never empty and draws all its
/// characters from the parameter class; a target with any other character
/// in a placeholder position does not match.
pub proof fn theorem_template_segment_class(segs: Seq<PathSeg>, target: Seq<char>, j: int)
    requires
        spec_template_matches(segs, target),
        0 <= j < segs.len(),
        segs[j] is Param,
    ensures
        split_char(target, '/')[j + 1].len() > 0,
        forall|c: int|
            0 <= c < split_char(target, '/')[j + 1].len() ==> is_param_char(
                #[trigger] split_char(target, '/')[j + 1][c],
            ),
{
    assert(spec_seg_matches(segs[j], split_char(target, '/')[j + 1]));
}

/// Path parameters are exactly the declared names, each bound to the
/// segment at its declared position, later duplicate names winning: for
/// every name `k`, what extraction yields is the last declared binding.
pub proof fn theorem_template_params_exact<H>(
    rs: Seq<(RouteKey, Route<H>)>,
    target: Seq<char>,
    k: Seq<char>,
)
    requires
        spec_find_template(rs, target) != -1,
    ensures
        crate::headers::spec_get(spec_params_of(rs, target), k) == crate::headers::spec_last_value(
            spec_declared_pairs(rs[spec_find_template(rs, target)].1.path_params@, target),
            k,
        ),
{
    let ti = spec_find_template(rs, target);
    let ps = spec_declared_pairs(rs[ti].1.path_params@, target);
    crate::headers::lemma_get_insert_all(Seq::empty(), ps, k);
    if crate::headers::spec_last_value(ps, k) is None {
        assert(crate::headers::spec_get(Seq::empty(), k) == Option::<Seq<char>>::None);
    }
}

impl<H> Route<H> {
    fn new_with_params(method: HttpRequestMethod, handler: H, pp: Vec<(usize, String)>) -> (r:
        Route<H>)
        ensures
            r.handlers@ == seq![(method, handler)],
            r.path_params == pp,
            r.wf_methods(),
    {
        let mut handlers: Vec<(HttpRequestMethod, H)> = Vec::new();
        handlers.push((method, handler));
        let r = Route { handlers, path_params: pp };
        proof {
            assert(r.handlers@ =~= seq![(method, handler)]);
        }
        r
    }
}

} // verus!
