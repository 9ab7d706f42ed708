use vstd::prelude::*;

verus! {

/// The representative of `i` in a forest where every link points to a greater index.
pub open spec fn uf_root(p: Seq<usize>, i: int) -> int
    decreases p.len() - i,
{
    if 0 <= i < p.len() && i < p[i] < p.len() {
        uf_root(p, p[i] as int)
    } else {
        i
    }
}

/// Every link stays in range and points to itself or to a greater index.
pub open spec fn uf_wf(p: Seq<usize>) -> bool {
    forall|i: int| 0 <= i < p.len() ==> #[trigger] p[i] < p.len() && (p[i] == i || p[i] > i)
}

pub proof fn lemma_root_props(p: Seq<usize>, i: int)
    requires
        uf_wf(p),
        0 <= i < p.len(),
    ensures
        i <= uf_root(p, i) < p.len(),
        p[uf_root(p, i)] == uf_root(p, i),
        uf_root(p, uf_root(p, i)) == uf_root(p, i),
    decreases p.len() - i,
{
    if p[i] > i {
        lemma_root_props(p, p[i] as int);
    }
}

/// Linking root `a` under root `b` moves the members of `a`'s class into `b`'s class.
pub proof fn lemma_link_root(p: Seq<usize>, a: int, b: int, j: int)
    requires
        uf_wf(p),
        0 <= a < b < p.len(),
        p[a] == a,
        p[b] == b,
        0 <= j < p.len(),
    ensures
        uf_root(p.update(a, b as usize), j) == (if uf_root(p, j) == a {
            b
        } else {
            uf_root(p, j)
        }),
    decreases p.len() - j,
{
    let q = p.update(a, b as usize);
    if j == a {
        assert(uf_root(q, b) == b);
    } else if p[j] > j {
        lemma_link_root(p, a, b, p[j] as int);
    }
}

/// A table whose indices are grouped into classes; each class keeps one value, at its root.
pub struct UnionFind<T> {
    values: Vec<T>,
    parents: Vec<usize>,
}

impl<T> UnionFind<T> {
    pub closed spec fn values(&self) -> Seq<T> {
        self.values@
    }

    pub closed spec fn parents(&self) -> Seq<usize> {
        self.parents@
    }

    pub closed spec fn wf(&self) -> bool {
        &&& self.values@.len() == self.parents@.len()
        &&& uf_wf(self.parents@)
    }

    /// The number of indices.
    pub open spec fn spec_len(&self) -> nat {
        self.values().len()
    }

    /// The root of the class of `i`.
    pub open spec fn root(&self, i: int) -> int {
        uf_root(self.parents(), i)
    }

    pub proof fn lemma_wf(&self)
        requires
            self.wf(),
        ensures
            self.parents().len() == self.spec_len(),
            self.values().len() == self.spec_len(),
            uf_wf(self.parents()),
            forall|i: int|
                0 <= i < self.spec_len() ==> i <= #[trigger] self.root(i) < self.spec_len()
                    && self.root(self.root(i)) == self.root(i),
    {
        assert forall|i: int| 0 <= i < self.spec_len() implies i <= #[trigger] self.root(i)
            < self.spec_len() && self.root(self.root(i)) == self.root(i) by {
            lemma_root_props(self.parents@, i);
        }
    }

    pub fn new() -> (r: Self)
        ensures
            r.wf(),
            r.spec_len() == 0,
    {
        UnionFind { values: Vec::new(), parents: Vec::new() }
    }

    pub fn len(&self) -> (r: usize)
        requires
            self.wf(),
        ensures
            r == self.spec_len(),
    {
        self.values.len()
    }

    /// A table with the given values and links.
    pub fn from_parts(values: Vec<T>, parents: Vec<usize>) -> (r: Self)
        requires
            values@.len() == parents@.len(),
            uf_wf(parents@),
        ensures
            r.wf(),
            r.values() == values@,
            r.parents() == parents@,
    {
        UnionFind { values, parents }
    }

    /// The links of the table.
    pub fn parents_vec(&self) -> (r: &Vec<usize>)
        ensures
            r@ == self.parents(),
    {
        &self.parents
    }

    /// Adds a new index, in a class of its own, keeping `v`.
    pub fn push(&mut self, v: T) -> (r: usize)
        requires
            old(self).wf(),
        ensures
            final(self).wf(),
            r == old(self).spec_len(),
            final(self).spec_len() == old(self).spec_len() + 1,
            final(self).values() == old(self).values().push(v),
            final(self).parents() == old(self).parents().push(r),
            forall|i: int|
                0 <= i < old(self).spec_len() ==> #[trigger] final(self).root(i) == old(self).root(i),
            final(self).root(r as int) == r,
    {
        let r = self.values.len();
        self.values.push(v);
        self.parents.push(r);
        proof {
            assert forall|i: int| 0 <= i < old(self).spec_len() implies #[trigger] self.root(i)
                == old(self).root(i) by {
                lemma_push_root(old(self).parents@, r, i);
            }
        }
        r
    }

    /// The root of the class of `i`.
    pub fn root_of(&self, i: usize) -> (r: usize)
        requires
            self.wf(),
            i < self.spec_len(),
        ensures
            r == self.root(i as int),
    {
        let mut cur = i;
        while self.parents[cur] != cur
            invariant
                self.wf(),
                cur < self.spec_len(),
                uf_root(self.parents@, cur as int) == uf_root(self.parents@, i as int),
            decreases self.spec_len() - cur,
        {
            cur = self.parents[cur];
        }
        cur
    }

    /// The value kept at index `i` itself (the class value when `i` is a root).
    pub fn value_at(&self, i: usize) -> (r: &T)
        requires
            self.wf(),
            i < self.spec_len(),
        ensures
            *r == self.values()[i as int],
    {
        &self.values[i]
    }

    /// Replaces the value kept at index `i`.
    pub fn set_value(&mut self, i: usize, v: T)
        requires
            old(self).wf(),
            i < old(self).spec_len(),
        ensures
            final(self).wf(),
            final(self).values() == old(self).values().update(i as int, v),
            final(self).parents() == old(self).parents(),
    {
        self.values.set(i, v);
    }

    /// Puts root `a` into the class of root `b`.
    pub fn link(&mut self, a: usize, b: usize)
        requires
            old(self).wf(),
            a < b < old(self).spec_len(),
            old(self).root(a as int) == a,
            old(self).root(b as int) == b,
        ensures
            final(self).wf(),
            final(self).values() == old(self).values(),
            final(self).spec_len() == old(self).spec_len(),
            forall|j: int|
                0 <= j < old(self).spec_len() ==> #[trigger] final(self).root(j) == (if old(
                    self,
                ).root(j) == a {
                    b as int
                } else {
                    old(self).root(j)
                }),
    {
        proof {
            lemma_root_props(self.parents@, a as int);
            lemma_root_props(self.parents@, b as int);
        }
        let ghost p = self.parents@;
        self.parents.set(a, b);
        proof {
            assert(self.parents@ == p.update(a as int, b));
            assert forall|j: int| 0 <= j < old(self).spec_len() implies #[trigger] self.root(j)
                == (if old(self).root(j) == a {
                b as int
            } else {
                old(self).root(j)
            }) by {
                lemma_link_root(p, a as int, b as int, j);
            }
        }
    }
}

pub proof fn lemma_push_root(p: Seq<usize>, r: usize, i: int)
    requires
        uf_wf(p),
        r == p.len(),
        0 <= i < p.len(),
    ensures
        uf_root(p.push(r), i) == uf_root(p, i),
    decreases p.len() - i,
{
    if p[i] > i {
        lemma_push_root(p, r, p[i] as int);
    }
}

} // verus!
