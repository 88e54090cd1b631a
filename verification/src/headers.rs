//! An ordered string-to-string mapping with last-write-wins insertion,
//! used for request headers, response headers, and path parameters.
//! Entries keep insertion order, so serialization is deterministic.

use vstd::prelude::*;

verus! {

use vstd::pervasive::VecAdditionalExecFns;
use crate::strutil::str_eq;

/// Index of the first entry with key `k`, or -1 if `k` is not bound.
pub open spec fn spec_index_of_key(m: Seq<(Seq<char>, Seq<char>)>, k: Seq<char>) -> int
    decreases m.len(),
{
    if m.len() == 0 {
        -1
    } else if m[0].0 == k {
        0
    } else if spec_index_of_key(m.drop_first(), k) == -1 {
        -1
    } else {
        1 + spec_index_of_key(m.drop_first(), k)
    }
}

pub proof fn lemma_index_of_key(m: Seq<(Seq<char>, Seq<char>)>, k: Seq<char>)
    ensures
        spec_index_of_key(m, k) == -1 ==> forall|j: int| 0 <= j < m.len() ==> m[j].0 != k,
        spec_index_of_key(m, k) != -1 ==> 0 <= spec_index_of_key(m, k) < m.len() && m[
            spec_index_of_key(m, k)
        ].0 == k && forall|j: int| 0 <= j < spec_index_of_key(m, k) ==> m[j].0 != k,
    decreases m.len(),
{
    if m.len() > 0 && m[0].0 != k {
        lemma_index_of_key(m.drop_first(), k);
        let r = spec_index_of_key(m.drop_first(), k);
        if r == -1 {
            assert forall|j: int| 0 <= j < m.len() implies m[j].0 != k by {
                if j > 0 {
                    assert(m.drop_first()[j - 1] == m[j]);
                }
            }
        } else {
            assert(m[spec_index_of_key(m, k)] == m.drop_first()[r]);
            assert forall|j: int| 0 <= j < spec_index_of_key(m, k) implies m[j].0 != k by {
                if j > 0 {
                    assert(m.drop_first()[j - 1] == m[j]);
                }
            }
        }
    }
}

/// The value bound to `k`, if any.
pub open spec fn spec_get(m: Seq<(Seq<char>, Seq<char>)>, k: Seq<char>) -> Option<Seq<char>> {
    let i = spec_index_of_key(m, k);
    if i == -1 {
        Option::None
    } else {
        Option::Some(m[i].1)
    }
}

/// Bind `k` to `v`: replace the value in place when `k` is already bound,
/// append a new entry otherwise.
pub open spec fn spec_insert(
    m: Seq<(Seq<char>, Seq<char>)>,
    k: Seq<char>,
    v: Seq<char>,
) -> Seq<(Seq<char>, Seq<char>)> {
    let i = spec_index_of_key(m, k);
    if i == -1 {
        m.push((k, v))
    } else {
        m.update(i, (k, v))
    }
}

/// Bind each pair in order; later pairs with the same key win.
pub open spec fn spec_insert_all(
    m: Seq<(Seq<char>, Seq<char>)>,
    ps: Seq<(Seq<char>, Seq<char>)>,
) -> Seq<(Seq<char>, Seq<char>)>
    decreases ps.len(),
{
    if ps.len() == 0 {
        m
    } else {
        spec_insert_all(spec_insert(m, ps[0].0, ps[0].1), ps.drop_first())
    }
}

/// Looking a key up past a first entry that does not bind it.
pub proof fn lemma_get_step(m: Seq<(Seq<char>, Seq<char>)>, k2: Seq<char>)
    requires
        m.len() > 0,
        m[0].0 != k2,
    ensures
        spec_get(m, k2) == spec_get(m.drop_first(), k2),
{
    lemma_index_of_key(m.drop_first(), k2);
    let r = spec_index_of_key(m.drop_first(), k2);
    if r != -1 {
        assert(m[1 + r] == m.drop_first()[r]);
    }
}

/// What a lookup returns after an insertion.
pub proof fn lemma_get_insert(
    m: Seq<(Seq<char>, Seq<char>)>,
    k: Seq<char>,
    v: Seq<char>,
    k2: Seq<char>,
)
    ensures
        spec_get(spec_insert(m, k, v), k2) == if k2 == k {
            Option::Some(v)
        } else {
            spec_get(m, k2)
        },
    decreases m.len(),
{
    lemma_index_of_key(m, k);
    let mm = spec_insert(m, k, v);
    if m.len() == 0 {
        assert(mm =~= seq![(k, v)]);
        assert(mm[0].0 == k);
        if k2 != k {
            lemma_get_step(mm, k2);
            assert(mm.drop_first() =~= Seq::<(Seq<char>, Seq<char>)>::empty());
        }
    } else if m[0].0 == k {
        assert(spec_index_of_key(m, k) == 0);
        assert(mm =~= m.update(0, (k, v)));
        assert(mm[0].0 == k);
        if k2 != k {
            lemma_get_step(mm, k2);
            lemma_get_step(m, k2);
            assert(mm.drop_first() =~= m.drop_first());
        }
    } else {
        let i = spec_index_of_key(m, k);
        assert(mm.len() > 0 && mm[0] == m[0]) by {
            if i == -1 {
            } else {
                assert(i >= 1);
            }
        }
        assert(mm.drop_first() =~= spec_insert(m.drop_first(), k, v)) by {
            if i == -1 {
                lemma_index_of_key(m.drop_first(), k);
                assert(m.push((k, v)).drop_first() =~= m.drop_first().push((k, v)));
            } else {
                assert(i >= 1);
                assert(spec_index_of_key(m.drop_first(), k) == i - 1);
                assert(m.update(i, (k, v)).drop_first() =~= m.drop_first().update(i - 1, (k, v)));
            }
        }
        lemma_get_insert(m.drop_first(), k, v, k2);
        if k2 == m[0].0 {
            assert(spec_index_of_key(mm, k2) == 0);
            assert(spec_index_of_key(m, k2) == 0);
        } else {
            lemma_get_step(mm, k2);
            lemma_get_step(m, k2);
        }
    }
}

/// The value of the last pair with key `k`, if any pair has it.
pub open spec fn spec_last_value(ps: Seq<(Seq<char>, Seq<char>)>, k: Seq<char>) -> Option<
    Seq<char>,
>
    decreases ps.len(),
{
    if ps.len() == 0 {
        Option::None
    } else {
        let rest = spec_last_value(ps.drop_first(), k);
        if rest is Some {
            rest
        } else if ps[0].0 == k {
            Option::Some(ps[0].1)
        } else {
            Option::None
        }
    }
}

/// Binding a list of pairs reads back as the last binding of each key.
pub proof fn lemma_get_insert_all(
    m: Seq<(Seq<char>, Seq<char>)>,
    ps: Seq<(Seq<char>, Seq<char>)>,
    k: Seq<char>,
)
    ensures
        spec_get(spec_insert_all(m, ps), k) == match spec_last_value(ps, k) {
            Option::Some(v) => Option::Some(v),
            Option::None => spec_get(m, k),
        },
    decreases ps.len(),
{
    if ps.len() > 0 {
        lemma_get_insert_all(spec_insert(m, ps[0].0, ps[0].1), ps.drop_first(), k);
        lemma_get_insert(m, ps[0].0, ps[0].1, k);
    }
}

/// An insertion keeps the keys of `m` and adds at most `k`.
pub proof fn lemma_insert_wf(m: Seq<(Seq<char>, Seq<char>)>, k: Seq<char>, v: Seq<char>)
    requires
        forall|i: int, j: int| 0 <= i < j < m.len() ==> m[i].0 != m[j].0,
    ensures
        forall|i: int, j: int|
            0 <= i < j < spec_insert(m, k, v).len() ==> spec_insert(m, k, v)[i].0 != spec_insert(
                m,
                k,
                v,
            )[j].0,
{
    lemma_index_of_key(m, k);
    let i = spec_index_of_key(m, k);
    if i == -1 {
        let mm = m.push((k, v));
        assert forall|a: int, b: int| 0 <= a < b < mm.len() implies mm[a].0 != mm[b].0 by {
            if b == m.len() {
                assert(mm[a] == m[a]);
            }
        }
    } else {
        let mm = m.update(i, (k, v));
        assert forall|a: int, b: int| 0 <= a < b < mm.len() implies mm[a].0 != mm[b].0 by {
            if a != i && b != i {
                assert(mm[a] == m[a] && mm[b] == m[b]);
            }
        }
    }
}

pub struct HeaderMap {
    entries: Vec<(String, String)>,
}

impl View for HeaderMap {
    type V = Seq<(Seq<char>, Seq<char>)>;

    closed spec fn view(&self) -> Seq<(Seq<char>, Seq<char>)> {
        self.entries@.map_values(|p: (String, String)| (p.0@, p.1@))
    }
}

impl HeaderMap {
    proof fn lemma_view_len(&self)
        ensures
            self@.len() == self.entries@.len(),
            forall|i: int|
                0 <= i < self@.len() ==> #[trigger] self@[i] == (
                    self.entries@[i].0@,
                    self.entries@[i].1@,
                ),
    {
    }

    /// Keys are pairwise distinct.
    pub open spec fn wf(&self) -> bool {
        forall|i: int, j: int| 0 <= i < j < self@.len() ==> self@[i].0 != self@[j].0
    }

    pub fn new() -> (r: HeaderMap)
        ensures
            r@ == Seq::<(Seq<char>, Seq<char>)>::empty(),
            r.wf(),
    {
        let r = HeaderMap { entries: Vec::new() };
        proof {
            assert(r@ =~= Seq::<(Seq<char>, Seq<char>)>::empty());
        }
        r
    }

    pub fn len(&self) -> (r: usize)
        ensures
            r == self@.len(),
    {
        self.entries.len()
    }

    pub fn key_at(&self, i: usize) -> (r: &String)
        requires
            i < self@.len(),
        ensures
            r@ == self@[i as int].0,
    {
        &self.entries[i].0
    }

    pub fn value_at(&self, i: usize) -> (r: &String)
        requires
            i < self@.len(),
        ensures
            r@ == self@[i as int].1,
    {
        &self.entries[i].1
    }

    pub fn get(&self, k: &str) -> (r: Option<&String>)
        ensures
            match r {
                Option::Some(v) => spec_get(self@, k@) == Option::Some(v@),
                Option::None => spec_get(self@, k@) == Option::<Seq<char>>::None,
            },
    {
        proof {
            lemma_index_of_key(self@, k@);
        }
        let n = self.entries.len();
        let mut i: usize = 0;
        while i < n
            invariant
                n == self@.len(),
                i <= n,
                forall|j: int| 0 <= j < i ==> self@[j].0 != k@,
            decreases n - i,
        {
            if str_eq(self.entries[i].0.as_str(), k) {
                proof {
                    self.lemma_view_len();
                    assert(self@[i as int].0 == k@);
                    lemma_index_of_key(self@, k@);
                    assert(spec_index_of_key(self@, k@) == i);
                }
                return Some(&self.entries[i].1);
            }
            proof {
                self.lemma_view_len();
                assert(self@[i as int].0 != k@);
            }
            i += 1;
        }
        None
    }

    pub fn insert(&mut self, k: String, v: String)
        ensures
            final(self)@ == spec_insert(old(self)@, k@, v@),
    {
        proof {
            lemma_index_of_key(self@, k@);
        }
        let ghost orig = *old(self);
        let n = self.entries.len();
        let mut i: usize = 0;
        while i < n
            invariant
                *self == orig,
                orig == *old(self),
                n == self@.len(),
                i <= n,
                forall|j: int| 0 <= j < i ==> self@[j].0 != k@,
            decreases n - i,
        {
            if str_eq(self.entries[i].0.as_str(), k.as_str()) {
                proof {
                    self.lemma_view_len();
                    assert(self@[i as int].0 == k@);
                    lemma_index_of_key(self@, k@);
                    assert(spec_index_of_key(self@, k@) == i);
                }
                let ghost old_view = self@;
                self.entries.set(i, (k, v));
                proof {
                    self.lemma_view_len();
                    assert(self@ =~= old_view.update(i as int, (k@, v@)));
                }
                return ;
            }
            proof {
                self.lemma_view_len();
                assert(self@[i as int].0 != k@);
            }
            i += 1;
        }
        proof {
            lemma_index_of_key(self@, k@);
            assert(spec_index_of_key(self@, k@) == -1);
        }
        let ghost old_view = self@;
        self.entries.push((k, v));
        proof {
            self.lemma_view_len();
            assert(self@ =~= old_view.push((k@, v@)));
        }
    }

    /// A copy with the same entries.
    pub fn duplicate(&self) -> (r: HeaderMap)
        ensures
            r@ == self@,
    {
        let n = self.entries.len();
        let mut out: Vec<(String, String)> = Vec::new();
        let mut i: usize = 0;
        while i < n
            invariant
                n == self.entries@.len(),
                i <= n,
                out@.len() == i,
                forall|j: int|
                    0 <= j < i ==> #[trigger] out@[j].0@ == self.entries@[j].0@ && out@[j].1@
                        == self.entries@[j].1@,
            decreases n - i,
        {
            let kk = self.entries[i].0.clone();
            let vv = self.entries[i].1.clone();
            out.push((kk, vv));
            i += 1;
        }
        let r = HeaderMap { entries: out };
        proof {
            self.lemma_view_len();
            r.lemma_view_len();
            assert(r@ =~= self@);
        }
        r
    }
}

} // verus!
