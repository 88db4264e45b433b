use vstd::prelude::*;

use crate::info::ObjectInfo;
use crate::shader::ShaderType;

verus! {

/// Kinds of light source.
#[derive(Clone, Copy, Debug, PartialEq, Eq, Structural)]
pub enum LightType {
    Ambient,
    Point,
    Directional,
    Spot,
}

/// One object's data.
pub struct Entry<T, M> {
    pub mesh: Option<M>,
    pub shader: Option<ShaderType>,
    pub transform: T,
    pub parent_transform: T,
    pub info: ObjectInfo,
    pub children: Vec<usize>,
    pub parent: Option<usize>,
}

/// The arena that owns every object of a scene, addressed by dense ids.
///
/// `T` is the transform value, `M` the mesh payload (geometry, material and
/// GPU handle), both opaque here. The objects form a forest: each has at most
/// one parent, lists its children in the order they were attached, and no
/// object is its own ancestor. A ghost rank, strictly greater than the rank
/// of the parent, witnesses the absence of cycles.
pub struct Storage<T, M> {
    entries: Vec<Entry<T, M>>,
    identity: T,
    lights: Vec<(usize, LightType)>,
    rank: Ghost<Seq<nat>>,
    bound: Ghost<nat>,
}

impl<T, M> Storage<T, M> {
    /// Depth witness: greater than the parent's.
    pub closed spec fn rank_of(&self, j: int) -> nat {
        self.rank@[j]
    }

    /// Above every rank.
    pub closed spec fn rank_bound(&self) -> nat {
        self.bound@
    }

    /// Number of objects.
    pub closed spec fn len(&self) -> nat {
        self.entries@.len()
    }

    pub closed spec fn parent_of(&self, i: int) -> Option<usize> {
        self.entries@[i].parent
    }

    pub closed spec fn kids(&self, i: int) -> Seq<usize> {
        self.entries@[i].children@
    }

    /// The object's own (local) transform.
    pub closed spec fn local(&self, i: int) -> T {
        self.entries@[i].transform
    }

    /// The cached composition of the ancestors' local transforms.
    pub closed spec fn accum(&self, i: int) -> T {
        self.entries@[i].parent_transform
    }

    pub closed spec fn info_of(&self, i: int) -> ObjectInfo {
        self.entries@[i].info
    }

    pub closed spec fn mesh_of(&self, i: int) -> Option<M> {
        self.entries@[i].mesh
    }

    pub closed spec fn shader_of(&self, i: int) -> Option<ShaderType> {
        self.entries@[i].shader
    }

    /// The transform a fresh, unattached object starts with as its parent transform.
    pub closed spec fn identity_value(&self) -> T {
        self.identity
    }

    pub closed spec fn light_seq(&self) -> Seq<(usize, LightType)> {
        self.lights@
    }

    pub closed spec fn wf(&self) -> bool {
        &&& self.rank@.len() == self.entries@.len()
        &&& self.bound@ > 0
        &&& self.entries@.len() <= usize::MAX
        &&& forall|i: int| 0 <= i < self.len() ==> #[trigger] self.rank@[i] < self.bound@
        &&& forall|i: int|
            #![trigger self.entries@[i].parent]
            0 <= i < self.len() && self.entries@[i].parent is Some ==> {
                let p = self.entries@[i].parent->0;
                &&& p < self.len()
                &&& self.rank@[p as int] < self.rank@[i]
                &&& self.entries@[p as int].children@.contains(i as usize)
            }
        &&& forall|i: int, k: int|
            #![trigger self.entries@[i].children@[k]]
            0 <= i < self.len() && 0 <= k < self.entries@[i].children@.len() ==> {
                let c = self.entries@[i].children@[k];
                &&& c < self.len()
                &&& self.entries@[c as int].parent == Some(i as usize)
            }
        &&& forall|i: int|
            0 <= i < self.len() ==> (#[trigger] self.entries@[i].children@).no_duplicates()
        &&& forall|k: int| 0 <= k < self.lights@.len() ==> (#[trigger] self.lights@[k]).0 < self.len()
    }

    /// Everything but the cached parent transforms is as in `other`.
    pub closed spec fn same_but_accum(&self, other: &Self) -> bool {
        &&& self.entries@.len() == other.entries@.len()
        &&& self.rank == other.rank
        &&& self.bound == other.bound
        &&& self.identity == other.identity
        &&& self.lights == other.lights
        &&& forall|i: int|
            #![trigger self.entries@[i]]
            0 <= i < self.len() ==> {
                &&& self.entries@[i].parent == other.entries@[i].parent
                &&& self.entries@[i].children == other.entries@[i].children
                &&& self.entries@[i].transform == other.entries@[i].transform
                &&& self.entries@[i].info == other.entries@[i].info
                &&& self.entries@[i].mesh == other.entries@[i].mesh
                &&& self.entries@[i].shader == other.entries@[i].shader
            }
    }

    /// `a` is `j` itself or one of its ancestors.
    pub closed spec fn in_subtree(&self, a: int, j: int) -> bool {
        self.reaches(a, j)
    }

    spec fn reaches(&self, a: int, j: int) -> bool
        decreases self.rank@[j],
    {
        if j == a {
            true
        } else if 0 <= j < self.entries@.len() && j < self.rank@.len()
            && self.entries@[j].parent is Some {
            let p = self.entries@[j].parent->0 as int;
            if 0 <= p < self.rank@.len() && self.rank@[p] < self.rank@[j] {
                self.reaches(a, p)
            } else {
                false
            }
        } else {
            false
        }
    }

    /// `j` lies in the subtree of `a`, below `a` itself.
    pub closed spec fn below(&self, a: int, j: int) -> bool {
        j != a && self.reaches(a, j)
    }

    /// The cached parent transform of `j` is what propagation puts there:
    /// the composition of its parent's parent transform with the parent's
    /// local transform, or the identity for an object without parent.
    pub open spec fn linked<F: Fn(T, T) -> T>(&self, compose: F, j: int) -> bool {
        match self.parent_of(j) {
            Some(p) => compose.ensures((self.accum(p as int), self.local(p as int)), self.accum(j)),
            None => self.accum(j) == self.identity_value(),
        }
    }

    /// Every cached parent transform is up to date.
    pub open spec fn consistent<F: Fn(T, T) -> T>(&self, compose: F) -> bool {
        forall|j: int| 0 <= j < self.len() ==> #[trigger] self.linked(compose, j)
    }

    /// `j` lies in the subtree of one of the first `k` children of `x`.
    closed spec fn under(&self, x: int, k: int, j: int) -> bool
        decreases k,
    {
        if k <= 0 {
            false
        } else {
            self.reaches(self.kids(x)[k - 1] as int, j) || self.under(x, k - 1, j)
        }
    }

    proof fn lemma_reaches_rank(&self, a: int, j: int)
        requires
            self.wf(),
            0 <= j < self.len(),
            self.reaches(a, j),
        ensures
            0 <= a < self.len(),
            self.rank@[a] <= self.rank@[j],
            a != j ==> self.rank@[a] < self.rank@[j],
        decreases self.rank@[j],
    {
        if j != a {
            let p = self.entries@[j].parent->0 as int;
            assert(self.entries@[j].parent is Some);
            self.lemma_reaches_rank(a, p);
        }
    }

    /// A child's subtree lies in its parent's subtree.
    proof fn lemma_reaches_from_parent(&self, x: int, c: int, j: int)
        requires
            self.wf(),
            0 <= x < self.len(),
            0 <= c < self.len(),
            0 <= j < self.len(),
            self.entries@[c].parent == Some(x as usize),
            self.reaches(c, j),
        ensures
            self.reaches(x, j),
            x != j,
        decreases self.rank@[j],
    {
        assert(self.entries@[c].parent is Some);
        self.lemma_reaches_rank(c, j);
        if j == c {
            assert(self.reaches(x, x));
        } else {
            let p = self.entries@[j].parent->0 as int;
            assert(self.entries@[j].parent is Some);
            self.lemma_reaches_from_parent(x, c, p);
        }
    }

    /// Two ancestors of one object are ordered.
    proof fn lemma_chain(&self, a: int, b: int, j: int)
        requires
            self.wf(),
            0 <= j < self.len(),
            self.reaches(a, j),
            self.reaches(b, j),
        ensures
            self.reaches(a, b) || self.reaches(b, a),
        decreases self.rank@[j],
    {
        if j != a && j != b {
            let p = self.entries@[j].parent->0 as int;
            assert(self.entries@[j].parent is Some);
            self.lemma_chain(a, b, p);
        }
    }

    /// The subtrees of two distinct siblings are disjoint.
    proof fn lemma_disjoint(&self, x: int, c1: int, c2: int, j: int)
        requires
            self.wf(),
            0 <= x < self.len(),
            0 <= c1 < self.len(),
            0 <= c2 < self.len(),
            0 <= j < self.len(),
            c1 != c2,
            self.entries@[c1].parent == Some(x as usize),
            self.entries@[c2].parent == Some(x as usize),
            self.reaches(c1, j),
        ensures
            !self.reaches(c2, j),
    {
        if self.reaches(c2, j) {
            self.lemma_chain(c1, c2, j);
            assert(self.entries@[c1].parent is Some);
            assert(self.entries@[c2].parent is Some);
            if self.reaches(c1, c2) {
                assert(self.reaches(c1, x));
                self.lemma_reaches_rank(c1, x);
            } else {
                assert(self.reaches(c2, x));
                self.lemma_reaches_rank(c2, x);
            }
        }
    }

    /// An object below `x` lies in the subtree of one of `x`'s children.
    proof fn lemma_below_under(&self, x: int, j: int)
        requires
            self.wf(),
            0 <= x < self.len(),
            0 <= j < self.len(),
            self.below(x, j),
        ensures
            self.under(x, self.kids(x).len() as int, j),
        decreases self.rank@[j],
    {
        let p = self.entries@[j].parent->0 as int;
        assert(self.entries@[j].parent is Some);
        if p == x {
            assert(self.kids(x).contains(j as usize));
            let i = choose|i: int| 0 <= i < self.kids(x).len() && self.kids(x)[i] == j as usize;
            self.lemma_under_intro(x, self.kids(x).len() as int, i, j);
        } else {
            self.lemma_below_under(x, p);
            self.lemma_under_extend(x, self.kids(x).len() as int, p, j);
        }
    }

    proof fn lemma_under_intro(&self, x: int, k: int, i: int, j: int)
        requires
            0 <= i < k,
            self.reaches(self.kids(x)[i] as int, j),
        ensures
            self.under(x, k, j),
        decreases k,
    {
        if i < k - 1 {
            self.lemma_under_intro(x, k - 1, i, j);
        }
    }

    /// From the parent `p` of `j` to `j` itself.
    proof fn lemma_under_extend(&self, x: int, k: int, p: int, j: int)
        requires
            self.wf(),
            0 <= x < self.len(),
            0 <= j < self.len(),
            0 <= p < self.len(),
            k <= self.kids(x).len(),
            self.entries@[j].parent == Some(p as usize),
            self.under(x, k, p),
        ensures
            self.under(x, k, j),
        decreases k,
    {
        assert(self.entries@[j].parent is Some);
        if self.reaches(self.kids(x)[k - 1] as int, p) {
            let c = self.kids(x)[k - 1] as int;
            if j != c {
                assert(self.reaches(c, j));
            }
        } else {
            self.lemma_under_extend(x, k - 1, p, j);
        }
    }

    /// What lies under the first `k` children of `x` lies below `x`, in one
    /// of their subtrees.
    proof fn lemma_under_elim(&self, x: int, k: int, j: int)
        requires
            self.wf(),
            0 <= x < self.len(),
            0 <= j < self.len(),
            k <= self.kids(x).len(),
            self.under(x, k, j),
        ensures
            self.below(x, j),
            exists|i: int| 0 <= i < k && #[trigger] self.reaches(self.kids(x)[i] as int, j),
        decreases k,
    {
        let c = self.kids(x)[k - 1] as int;
        assert(self.entries@[x].children@[k - 1] == c);
        if self.reaches(c, j) {
            self.lemma_reaches_from_parent(x, c, j);
        } else {
            self.lemma_under_elim(x, k - 1, j);
        }
    }

    /// `reaches` reads only the parent links and ranks.
    proof fn lemma_reaches_frame(&self, other: &Self, a: int, j: int)
        requires
            self.wf(),
            other.same_shape(self) || other.same_but_accum(self),
            0 <= j < self.len(),
        ensures
            other.reaches(a, j) == self.reaches(a, j),
        decreases self.rank@[j],
    {
        assert(other.entries@[j].parent == self.entries@[j].parent);
        if j != a && self.entries@[j].parent is Some {
            let p = self.entries@[j].parent->0 as int;
            self.lemma_reaches_frame(other, a, p);
        }
    }

    /// Every object's info, mesh and shader are those of `other`.
    pub closed spec fn same_payload(&self, other: &Self) -> bool {
        &&& self.entries@.len() == other.entries@.len()
        &&& forall|i: int|
            #![trigger self.entries@[i]]
            0 <= i < self.len() ==> {
                &&& self.entries@[i].info == other.entries@[i].info
                &&& self.entries@[i].mesh == other.entries@[i].mesh
                &&& self.entries@[i].shader == other.entries@[i].shader
            }
    }

    /// The parent transform of `j` computed from scratch, top down: the
    /// identity for an object without parent, else `f` of the parent's own
    /// recomputed parent transform and the parent's local transform.
    pub closed spec fn recomputed(&self, f: spec_fn(T, T) -> T, j: int) -> T
        decreases self.rank_of(j),
    {
        if 0 <= j < self.entries@.len() && j < self.rank@.len()
            && self.entries@[j].parent is Some {
            let p = self.entries@[j].parent->0 as int;
            if 0 <= p < self.rank@.len() && self.rank@[p] < self.rank@[j] {
                f(self.recomputed(f, p), self.local(p))
            } else {
                self.identity
            }
        } else {
            self.identity
        }
    }

    /// Kept up to date eagerly, the cached parent transforms equal the ones
    /// recomputed from scratch: for a composition `compose` that computes
    /// `f`, a consistent storage holds `recomputed(f, j)` at every `j`.
    pub proof fn lemma_consistent_is_recomputed<F: Fn(T, T) -> T>(
        &self,
        compose: F,
        f: spec_fn(T, T) -> T,
        j: int,
    )
        requires
            self.wf(),
            self.consistent(compose),
            forall|a: T, b: T, r: T| compose.ensures((a, b), r) ==> r == f(a, b),
            0 <= j < self.len(),
        ensures
            self.accum(j) == self.recomputed(f, j),
        decreases self.rank_of(j),
    {
        assert(self.linked(compose, j));
        if let Some(p) = self.entries@[j].parent {
            assert(self.entries@[j].parent is Some);
            self.lemma_consistent_is_recomputed(compose, f, p as int);
        }
    }

    /// `self` is `old` with `child` linked under `parent`: nothing else in
    /// the links changed, nor any local transform, info, mesh or light.
    pub closed spec fn attached(&self, old: &Self, parent: int, child: int) -> bool {
        &&& self.entries@.len() == old.entries@.len()
        &&& self.identity == old.identity
        &&& self.lights == old.lights
        &&& self.entries@[child].parent == Some(parent as usize)
        &&& self.entries@[parent].children@ == old.entries@[parent].children@.push(child as usize)
        &&& forall|i: int|
            #![trigger self.entries@[i]]
            0 <= i < self.len() ==> {
                &&& (i != child ==> self.entries@[i].parent == old.entries@[i].parent)
                &&& (i != parent ==> self.entries@[i].children == old.entries@[i].children)
                &&& self.entries@[i].transform == old.entries@[i].transform
                &&& self.entries@[i].info == old.entries@[i].info
                &&& self.entries@[i].mesh == old.entries@[i].mesh
                &&& self.entries@[i].shader == old.entries@[i].shader
            }
    }

    proof fn lemma_attach_wf(&self, s1: &Self, parent: int, child: int)
        requires
            self.wf(),
            0 <= parent < self.len(),
            0 <= child < self.len(),
            self.entries@[child].parent is None,
            !self.reaches(child, parent),
            s1.attached(self, parent, child),
            s1.bound@ == self.bound@ + self.rank@[parent] + 1,
            s1.rank@.len() == self.rank@.len(),
            forall|j: int| 0 <= j < self.rank@.len() ==> #[trigger] s1.rank@[j] == if self.reaches(child, j) {
                self.rank@[j] + self.rank@[parent] + 1
            } else {
                self.rank@[j]
            },
        ensures
            s1.wf(),
    {
        let shift = self.rank@[parent] + 1;
        assert forall|i: int| 0 <= i < s1.len() implies #[trigger] s1.rank@[i] < s1.bound@ by {
            assert(self.rank@[i] < self.bound@);
        }
        assert forall|i: int|
            0 <= i < s1.len() && (#[trigger] s1.entries@[i].parent) is Some implies {
                let p = s1.entries@[i].parent->0;
                &&& p < s1.len()
                &&& s1.rank@[p as int] < s1.rank@[i]
                &&& s1.entries@[p as int].children@.contains(i as usize)
            } by {
            assert(s1.entries@[i] == s1.entries@[i]);
            if i == child {
                assert(s1.entries@[parent].children@.last() == child as usize);
            } else {
                let p = self.entries@[i].parent->0 as int;
                assert(self.entries@[i].parent is Some);
                assert(self.entries@[p].children@.contains(i as usize));
                if self.reaches(child, p) {
                    assert(self.reaches(child, i));
                }
                if self.reaches(child, i) {
                    assert(self.reaches(child, p));
                }
                assert(s1.entries@[p] == s1.entries@[p]);
                if p == parent {
                    let k = choose|k: int| 0 <= k < self.entries@[p].children@.len() && self.entries@[p].children@[k] == i as usize;
                    assert(s1.entries@[p].children@[k] == i as usize);
                }
            }
        }
        assert forall|i: int, k: int|
            0 <= i < s1.len() && 0 <= k < s1.entries@[i].children@.len() implies {
                let c = #[trigger] s1.entries@[i].children@[k];
                &&& c < s1.len()
                &&& s1.entries@[c as int].parent == Some(i as usize)
            } by {
            assert(s1.entries@[i] == s1.entries@[i]);
            if i == parent && k == self.entries@[i].children@.len() {
            } else {
                let c = self.entries@[i].children@[k];
                assert(s1.entries@[i].children@[k] == c);
                assert(self.entries@[c as int].parent == Some(i as usize));
                assert(s1.entries@[c as int] == s1.entries@[c as int]);
            }
        }
        assert forall|i: int| 0 <= i < s1.len() implies (#[trigger] s1.entries@[i].children@).no_duplicates() by {
            assert(s1.entries@[i] == s1.entries@[i]);
            assert(self.entries@[i].children@.no_duplicates());
            if i == parent {
                assert(!self.entries@[i].children@.contains(child as usize)) by {
                    if self.entries@[i].children@.contains(child as usize) {
                        let k = choose|k: int| 0 <= k < self.entries@[i].children@.len() && self.entries@[i].children@[k] == child as usize;
                        assert(self.entries@[i].children@[k] == child as usize);
                    }
                }
            }
        }
    }

    /// Below `child`, attaching changes nothing.
    proof fn lemma_attach_reaches(&self, s1: &Self, parent: int, child: int, j: int)
        requires
            self.wf(),
            s1.wf(),
            0 <= parent < self.len(),
            0 <= child < self.len(),
            0 <= j < self.len(),
            s1.attached(self, parent, child),
        ensures
            s1.reaches(child, j) == self.reaches(child, j),
        decreases self.rank@[j],
    {
        assert(s1.entries@[j] == s1.entries@[j]);
        if j != child {
            if let Some(p) = self.entries@[j].parent {
                assert(self.entries@[j].parent is Some);
                assert(s1.entries@[j].parent is Some);
                self.lemma_attach_reaches(s1, parent, child, p as int);
            }
        }
    }

    proof fn lemma_attach_post<F: Fn(T, T) -> T>(
        &self,
        s1: &Self,
        now: &Self,
        parent: int,
        child: int,
        compose: F,
        eff: T,
    )
        requires
            self.wf(),
            s1.wf(),
            0 <= parent < self.len(),
            0 <= child < self.len(),
            self.entries@[child].parent is None,
            !self.reaches(child, parent),
            s1.attached(self, parent, child),
            forall|i: int| #![trigger s1.accum(i)]
                0 <= i < self.len() && i != child ==> s1.accum(i) == self.accum(i),
            s1.accum(child) == eff,
            compose.ensures((self.accum(parent), self.local(parent)), eff),
            now.wf(),
            now.same_but_accum(s1),
            forall|j: int|
                #![trigger now.accum(j)]
                0 <= j < s1.len() ==> if s1.below(child, j) {
                    now.linked(compose, j)
                } else {
                    now.accum(j) == s1.accum(j)
                },
        ensures
            now.attached(self, parent, child),
            forall|j: int|
                #![trigger now.accum(j)]
                0 <= j < self.len() ==> if self.in_subtree(child, j) {
                    now.linked(compose, j)
                } else {
                    now.accum(j) == self.accum(j)
                },
            self.consistent(compose) ==> now.consistent(compose),
    {
        assert forall|j: int| 0 <= j < self.len() implies (s1.reaches(child, j)
            == #[trigger] self.reaches(child, j)) by {
            self.lemma_attach_reaches(s1, parent, child, j);
        }
        assert(now.accum(parent) == self.accum(parent));
        assert(now.entries@[parent] == now.entries@[parent]);
        assert(now.entries@[child] == now.entries@[child]);
        assert(s1.entries@[parent] == s1.entries@[parent]);
        assert(s1.entries@[child] == s1.entries@[child]);
        assert(now.linked(compose, child));
        assert forall|i: int| 0 <= i < now.len() implies #[trigger] now.entries@[i] == now.entries@[i]
            && s1.entries@[i] == s1.entries@[i] by {}
        if self.consistent(compose) {
            assert forall|j: int| 0 <= j < now.len() implies #[trigger] now.linked(compose, j) by {
                assert(self.linked(compose, j));
                assert(now.entries@[j] == now.entries@[j]);
                assert(s1.entries@[j] == s1.entries@[j]);
                if !self.reaches(child, j) {
                    if let Some(p) = self.entries@[j].parent {
                        assert(self.entries@[j].parent is Some);
                        let p = p as int;
                        if self.reaches(child, p) {
                            assert(self.reaches(child, j));
                        }
                        assert(now.accum(p) == self.accum(p));
                    }
                }
            }
        }
    }

    /// The whole record of object `j`, for triggering.
    pub closed spec fn entries_at(&self, j: int) -> Entry<T, M> {
        self.entries@[j]
    }

    /// Only the lights may differ from `other`.
    pub closed spec fn entries_unchanged(&self, other: &Self) -> bool {
        &&& self.entries == other.entries
        &&& self.rank == other.rank
        &&& self.bound == other.bound
        &&& self.identity == other.identity
    }

    /// Only the infos may differ from `other`.
    pub closed spec fn same_but_info(&self, other: &Self) -> bool {
        &&& self.same_shape(other)
        &&& forall|i: int|
            #![trigger self.entries@[i]]
            0 <= i < self.len() ==> {
                &&& self.entries@[i].transform == other.entries@[i].transform
                &&& self.entries@[i].parent_transform == other.entries@[i].parent_transform
                &&& self.entries@[i].mesh == other.entries@[i].mesh
                &&& self.entries@[i].shader == other.entries@[i].shader
            }
    }

    /// The subtree of `x` in depth-first order: `x`, then the subtree of
    /// each child in the order the children were attached.
    pub closed spec fn preorder(&self, x: int) -> Seq<usize>
        decreases self.rank_bound() - self.rank_of(x), self.kids(x).len() + 1,
    {
        seq![x as usize] + self.preorder_kids(x, 0)
    }

    /// The subtrees of the children of `x` from the `i`-th on.
    closed spec fn preorder_kids(&self, x: int, i: int) -> Seq<usize>
        decreases self.rank_bound() - self.rank_of(x), self.kids(x).len() - i,
    {
        if 0 <= i < self.kids(x).len() {
            let c = self.kids(x)[i] as int;
            let sub = if self.rank_of(x) < self.rank_of(c) < self.rank_bound() {
                self.preorder(c)
            } else {
                Seq::empty()
            };
            sub + self.preorder_kids(x, i + 1)
        } else {
            Seq::empty()
        }
    }

    /// The first object of `order` that has a mesh and was hit.
    pub closed spec fn first_hit(&self, order: Seq<usize>, hits: Seq<bool>) -> Option<usize>
        decreases order.len(),
    {
        if order.len() == 0 {
            None
        } else if self.mesh_of(order[0] as int) is Some && hits[order[0] as int] {
            Some(order[0])
        } else {
            self.first_hit(order.drop_first(), hits)
        }
    }

    /// `in_subtree` reads only the links.
    pub proof fn lemma_in_subtree_frame(&self, other: &Self, a: int, j: int)
        requires
            self.wf(),
            other.same_but_info(self),
            0 <= j < self.len(),
        ensures
            other.in_subtree(a, j) == self.in_subtree(a, j),
            other.parent_of(j) == self.parent_of(j),
    {
        self.lemma_reaches_frame(other, a, j);
    }

    /// Changing only infos keeps the parent transforms consistent.
    pub proof fn lemma_info_keeps_consistency<F: Fn(T, T) -> T>(&self, other: &Self, compose: F)
        requires
            self.wf(),
            other.same_but_info(self),
        ensures
            self.consistent(compose) ==> other.consistent(compose),
    {
        if self.consistent(compose) {
            assert forall|j: int| 0 <= j < other.len() implies #[trigger] other.linked(compose, j) by {
                assert(self.linked(compose, j));
                assert(other.entries@[j] == other.entries@[j]);
                if let Some(p) = self.entries@[j].parent {
                    assert(self.entries@[j].parent is Some);
                    assert(other.entries@[p as int] == other.entries@[p as int]);
                }
            }
        }
    }

    /// Attaching keeps every info.
    pub proof fn lemma_attached_info(&self, other: &Self, parent: int, child: int, j: int)
        requires
            other.attached(self, parent, child),
            0 <= j < self.len(),
        ensures
            other.info_of(j) == self.info_of(j),
    {
        assert(other.entries@[j] == other.entries@[j]);
    }

    /// One turn of the loop in `show`: the subtree of the `k`-th child of
    /// `x` was shown (`mid` to `now`).
    proof fn lemma_show_step(&self, mid: &Self, now: &Self, x: int, k: int)
        requires
            self.wf(),
            mid.wf(),
            0 <= x < self.len(),
            0 <= k < self.kids(x).len(),
            mid.same_but_info(self),
            forall|j: int|
                #![trigger mid.info_of(j)]
                0 <= j < self.len() ==> mid.info_of(j) == if j == x || self.under(x, k, j) {
                    self.info_of(j).shown()
                } else {
                    self.info_of(j)
                },
            now.same_but_info(mid),
            forall|j: int|
                #![trigger now.info_of(j)]
                0 <= j < mid.len() ==> now.info_of(j) == if mid.in_subtree(self.kids(x)[k] as int, j) {
                    mid.info_of(j).shown()
                } else {
                    mid.info_of(j)
                },
        ensures
            forall|j: int|
                #![trigger now.info_of(j)]
                0 <= j < self.len() ==> now.info_of(j) == if j == x || self.under(x, k + 1, j) {
                    self.info_of(j).shown()
                } else {
                    self.info_of(j)
                },
    {
        let c = self.kids(x)[k] as int;
        assert forall|j: int| 0 <= j < self.len() implies #[trigger] now.info_of(j) == if j == x
            || self.under(x, k + 1, j) {
            self.info_of(j).shown()
        } else {
            self.info_of(j)
        } by {
            self.lemma_reaches_frame(mid, c, j);
            assert(mid.info_of(j) == mid.info_of(j));
        }
    }

    /// What `same_shape` says, object by object.
    pub proof fn lemma_same_shape(&self, other: &Self)
        requires
            self.same_shape(other),
        ensures
            self.len() == other.len(),
            self.identity_value() == other.identity_value(),
            self.light_seq() == other.light_seq(),
            forall|i: int|
                0 <= i < self.len() ==> #[trigger] self.parent_of(i) == other.parent_of(i)
                    && self.kids(i) == other.kids(i),
            forall|a: int, j: int|
                0 <= j < self.len() && self.wf() ==> #[trigger] self.in_subtree(a, j)
                    == other.in_subtree(a, j),
    {
        assert forall|i: int| 0 <= i < self.len() implies #[trigger] self.parent_of(i)
            == other.parent_of(i) && self.kids(i) == other.kids(i) by {
            assert(self.entries@[i] == self.entries@[i]);
        }
        assert forall|a: int, j: int| 0 <= j < self.len() && self.wf() implies #[trigger] self.in_subtree(
            a,
            j,
        ) == other.in_subtree(a, j) by {
            self.lemma_reaches_frame(other, a, j);
        }
    }

    /// What `same_payload` says, object by object.
    pub proof fn lemma_same_payload(&self, other: &Self)
        requires
            self.same_payload(other),
        ensures
            self.len() == other.len(),
            forall|i: int|
                0 <= i < self.len() ==> #[trigger] self.info_of(i) == other.info_of(i)
                    && self.mesh_of(i) == other.mesh_of(i) && self.shader_of(i) == other.shader_of(i),
    {
        assert forall|i: int| 0 <= i < self.len() implies #[trigger] self.info_of(i)
            == other.info_of(i) && self.mesh_of(i) == other.mesh_of(i) && self.shader_of(i)
            == other.shader_of(i) by {
            assert(self.entries@[i] == self.entries@[i]);
        }
    }

    /// What `same_but_info` says, object by object.
    pub proof fn lemma_same_but_info(&self, other: &Self)
        requires
            self.same_but_info(other),
        ensures
            self.same_shape(other),
            forall|i: int|
                0 <= i < self.len() ==> #[trigger] self.local(i) == other.local(i) && self.accum(i)
                    == other.accum(i) && self.mesh_of(i) == other.mesh_of(i) && self.shader_of(i)
                    == other.shader_of(i),
    {
        assert forall|i: int| 0 <= i < self.len() implies #[trigger] self.local(i) == other.local(i)
            && self.accum(i) == other.accum(i) && self.mesh_of(i) == other.mesh_of(i)
            && self.shader_of(i) == other.shader_of(i) by {
            assert(self.entries@[i] == self.entries@[i]);
        }
    }

    /// What `extends` says, object by object.
    pub proof fn lemma_extends(&self, other: &Self)
        requires
            self.extends(other),
        ensures
            other.len() <= self.len(),
            self.identity_value() == other.identity_value(),
            self.light_seq() == other.light_seq(),
            forall|i: int|
                0 <= i < other.len() ==> #[trigger] self.entries_at(i) == other.entries_at(i)
                    && self.local(i) == other.local(i) && self.accum(i) == other.accum(i)
                    && self.info_of(i) == other.info_of(i) && self.mesh_of(i) == other.mesh_of(i)
                    && self.shader_of(i) == other.shader_of(i) && self.parent_of(i)
                    == other.parent_of(i) && self.kids(i) == other.kids(i),
    {
        assert forall|i: int| 0 <= i < other.len() implies #[trigger] self.entries_at(i)
            == other.entries_at(i) && self.local(i) == other.local(i) && self.accum(i)
            == other.accum(i) && self.info_of(i) == other.info_of(i) && self.mesh_of(i)
            == other.mesh_of(i) && self.shader_of(i) == other.shader_of(i) && self.parent_of(i)
            == other.parent_of(i) && self.kids(i) == other.kids(i) by {
            assert(self.entries@[i] == other.entries@[i]);
        }
    }

    /// What `attached` says, object by object.
    pub proof fn lemma_attached(&self, old: &Self, parent: int, child: int)
        requires
            self.attached(old, parent, child),
        ensures
            self.len() == old.len(),
            self.identity_value() == old.identity_value(),
            self.light_seq() == old.light_seq(),
            forall|i: int|
                0 <= i < self.len() ==> #[trigger] self.local(i) == old.local(i) && self.info_of(i)
                    == old.info_of(i) && self.mesh_of(i) == old.mesh_of(i) && self.shader_of(i)
                    == old.shader_of(i) && (i != child ==> self.parent_of(i) == old.parent_of(i))
                    && (i != parent ==> self.kids(i) == old.kids(i)),
    {
        assert forall|i: int| 0 <= i < self.len() implies #[trigger] self.local(i) == old.local(i)
            && self.info_of(i) == old.info_of(i) && self.mesh_of(i) == old.mesh_of(i)
            && self.shader_of(i) == old.shader_of(i) && (i != child ==> self.parent_of(i)
            == old.parent_of(i)) && (i != parent ==> self.kids(i) == old.kids(i)) by {
            assert(self.entries@[i] == self.entries@[i]);
        }
    }

    /// Consistency reads only the parent links, the local and parent
    /// transforms and the identity; where those agree, so does consistency.
    /// This covers `set_mesh`, `set_info`, `show` and `add_light`.
    pub proof fn lemma_consistency_frame<F: Fn(T, T) -> T>(&self, other: &Self, compose: F)
        requires
            self.wf(),
            self.len() == other.len(),
            self.identity_value() == other.identity_value(),
            forall|i: int|
                0 <= i < self.len() ==> #[trigger] self.parent_of(i) == other.parent_of(i)
                    && self.local(i) == other.local(i) && self.accum(i) == other.accum(i),
        ensures
            self.consistent(compose) == other.consistent(compose),
    {
        assert forall|j: int| 0 <= j < self.len() implies #[trigger] self.linked(compose, j)
            == other.linked(compose, j) by {
            assert(self.parent_of(j) == other.parent_of(j));
            if let Some(p) = self.entries@[j].parent {
                assert(self.entries@[j].parent is Some);
                assert(self.parent_of(p as int) == other.parent_of(p as int));
            }
        }
        if self.consistent(compose) {
            assert forall|j: int| 0 <= j < other.len() implies #[trigger] other.linked(compose, j) by {
                assert(self.linked(compose, j));
            }
        }
        if other.consistent(compose) {
            assert forall|j: int| 0 <= j < self.len() implies #[trigger] self.linked(compose, j) by {
                assert(other.linked(compose, j));
            }
        }
    }

    /// An empty storage is consistent.
    pub proof fn lemma_empty_consistent<F: Fn(T, T) -> T>(&self, compose: F)
        requires
            self.len() == 0,
        ensures
            self.consistent(compose),
    {
    }

    /// New objects without parent and with the identity as parent transform
    /// (what `add` and `duplicate` store) keep a storage consistent.
    pub proof fn lemma_grown_consistent<F: Fn(T, T) -> T>(&self, old: &Self, compose: F)
        requires
            old.wf(),
            self.extends(old),
            forall|i: int|
                old.len() <= i < self.len() ==> #[trigger] self.parent_of(i) is None && self.accum(i)
                    == self.identity_value(),
        ensures
            old.consistent(compose) ==> self.consistent(compose),
    {
        if old.consistent(compose) {
            assert forall|j: int| 0 <= j < self.len() implies #[trigger] self.linked(compose, j) by {
                if j < old.len() {
                    assert(old.linked(compose, j));
                    assert(self.entries@[j] == old.entries@[j]);
                    if let Some(p) = old.entries@[j].parent {
                        assert(old.entries@[j].parent is Some);
                        assert(self.entries@[p as int] == old.entries@[p as int]);
                    }
                } else {
                    assert(self.parent_of(j) is None);
                }
            }
        }
    }

    /// An empty storage; `identity` is the parent transform of every object
    /// that has no parent.
    pub fn new(identity: T) -> (r: Self)
        ensures
            r.wf(),
            r.len() == 0,
            r.identity_value() == identity,
            r.light_seq() == Seq::<(usize, LightType)>::empty(),
    {
        Storage {
            entries: Vec::new(),
            identity,
            lights: Vec::new(),
            rank: Ghost(Seq::empty()),
            bound: Ghost(1),
        }
    }

    /// The forest and the registry are those of `other`: same objects, same
    /// parent and child links, same lights.
    pub closed spec fn same_shape(&self, other: &Self) -> bool {
        &&& self.entries@.len() == other.entries@.len()
        &&& self.rank == other.rank
        &&& self.bound == other.bound
        &&& self.identity == other.identity
        &&& self.lights == other.lights
        &&& forall|i: int|
            #![trigger self.entries@[i]]
            0 <= i < self.len() ==> {
                &&& self.entries@[i].parent == other.entries@[i].parent
                &&& self.entries@[i].children == other.entries@[i].children
            }
    }

    /// `self` holds every object of `other` unchanged, and possibly more.
    pub closed spec fn extends(&self, other: &Self) -> bool {
        &&& other.entries@.len() <= self.entries@.len()
        &&& self.rank@.subrange(0, other.rank@.len() as int) == other.rank@
        &&& self.identity == other.identity
        &&& self.lights == other.lights
        &&& forall|i: int|
            #![trigger self.entries@[i]]
            0 <= i < other.len() ==> self.entries@[i] == other.entries@[i]
    }
}

impl<T: Copy, M> Storage<T, M> {
    /// Stores a new object with no parent and no children; its parent
    /// transform is the identity. Returns its id, the next free one.
    pub fn add(
        &mut self,
        mesh: Option<M>,
        shader: Option<ShaderType>,
        transform: T,
        info: ObjectInfo,
    ) -> (id: usize)
        requires
            old(self).wf(),
            old(self).len() < usize::MAX,
        ensures
            final(self).wf(),
            id == old(self).len(),
            final(self).len() == old(self).len() + 1,
            final(self).extends(old(self)),
            final(self).identity_value() == old(self).identity_value(),
            final(self).light_seq() == old(self).light_seq(),
            final(self).mesh_of(id as int) == mesh,
            final(self).shader_of(id as int) == shader,
            final(self).local(id as int) == transform,
            final(self).accum(id as int) == old(self).identity_value(),
            final(self).info_of(id as int) == info,
            final(self).kids(id as int) == Seq::<usize>::empty(),
            final(self).parent_of(id as int) == None::<usize>,
    {
        let id = self.entries.len();
        let entry = Entry {
            mesh,
            shader,
            transform,
            parent_transform: self.identity,
            info,
            children: Vec::new(),
            parent: None,
        };
        self.entries.push(entry);
        self.rank = Ghost(self.rank@.push(0));
        proof {
            assert(self.rank@.subrange(0, id as int) =~= old(self).rank@);
            assert forall|i: int, k: int|
                0 <= i < self.len() && 0 <= k < self.entries@[i].children@.len() implies {
                    let c = #[trigger] self.entries@[i].children@[k];
                    &&& c < self.len()
                    &&& self.entries@[c as int].parent == Some(i as usize)
                } by {
                if i < id {
                    assert(old(self).entries@[i].children@[k] < id);
                }
            }
            assert forall|i: int|
                0 <= i < self.len() && (#[trigger] self.entries@[i].parent) is Some implies {
                    let p = self.entries@[i].parent->0;
                    &&& p < self.len()
                    &&& self.rank@[p as int] < self.rank@[i]
                    &&& self.entries@[p as int].children@.contains(i as usize)
                } by {
                assert(i < id);
                assert(self.entries@[i] == old(self).entries@[i]);
                let p = self.entries@[i].parent->0;
                assert(old(self).entries@[p as int].children@.contains(i as usize));
                assert(self.entries@[p as int] == old(self).entries@[p as int]);
            }
            assert forall|i: int| 0 <= i < self.len() implies #[trigger] self.rank@[i] < self.bound@ by {
                if i < id {
                    assert(old(self).rank@[i] < self.bound@);
                }
            }
            assert forall|i: int|
                0 <= i < self.len() implies (#[trigger] self.entries@[i].children@).no_duplicates() by {
                if i < id {
                    assert(self.entries@[i] == old(self).entries@[i]);
                }
            }
        }
        id
    }

    /// After the first `k` children of `x` were handled, their subtrees are
    /// linked and everything else is as it was.
    closed spec fn pushed<F: Fn(T, T) -> T>(&self, now: &Self, x: int, k: int, compose: F) -> bool {
        forall|j: int|
            #![trigger now.accum(j)]
            0 <= j < self.len() ==> if self.under(x, k, j) {
                now.linked(compose, j)
            } else {
                now.accum(j) == self.accum(j)
            }
    }

    /// One turn of the loop in `push_down`: the `k`-th child `c` got `eff`
    /// (`mid1` to `mid2`), then its subtree was pushed (`mid2` to `now`).
    proof fn lemma_push_step<F: Fn(T, T) -> T>(
        &self,
        mid1: &Self,
        mid2: &Self,
        now: &Self,
        x: int,
        k: int,
        compose: F,
        eff: T,
    )
        requires
            self.wf(),
            0 <= x < self.len(),
            0 <= k < self.kids(x).len(),
            mid1.wf(),
            mid1.same_but_accum(self),
            self.pushed(mid1, x, k, compose),
            mid2.wf(),
            mid2.same_but_accum(mid1),
            mid2.accum(self.kids(x)[k] as int) == eff,
            forall|j: int| #![trigger mid2.accum(j)]
                0 <= j < self.len() && j != self.kids(x)[k] as int ==> mid2.accum(j) == mid1.accum(j),
            compose.ensures((self.accum(x), self.local(x)), eff),
            now.wf(),
            now.same_but_accum(mid2),
            forall|j: int|
                #![trigger now.accum(j)]
                0 <= j < mid2.len() ==> if mid2.below(self.kids(x)[k] as int, j) {
                    now.linked(compose, j)
                } else {
                    now.accum(j) == mid2.accum(j)
                },
        ensures
            self.pushed(now, x, k + 1, compose),
    {
        let cc = self.kids(x)[k] as int;
        assert(self.entries@[x].children@[k] == cc);
        assert(self.entries@[cc].parent == Some(x as usize));
        assert(!self.under(x, k, x)) by {
            if self.under(x, k, x) {
                self.lemma_under_elim(x, k, x);
            }
        }
        assert(!self.reaches(cc, x)) by {
            if self.reaches(cc, x) {
                self.lemma_reaches_from_parent(x, cc, x);
            }
        }
        assert(now.accum(x) == self.accum(x)) by {
            self.lemma_reaches_frame(mid2, cc, x);
        }
        assert forall|j: int| 0 <= j < self.len() implies (if self.under(x, k + 1, j) {
                now.linked(compose, j)
            } else {
                #[trigger] now.accum(j) == self.accum(j)
            }) by {
            self.lemma_reaches_frame(mid2, cc, j);
            if self.reaches(cc, j) {
                if j == cc {
                    assert(now.entries@[j].parent == self.entries@[j].parent);
                    assert(now.linked(compose, j));
                } else {
                    assert(self.entries@[j].parent is Some);
                    let p = self.entries@[j].parent->0 as int;
                    assert(now.linked(compose, j));
                }
            } else if self.under(x, k, j) {
                self.lemma_under_elim(x, k, j);
                let i = choose|i: int| 0 <= i < k && #[trigger] self.reaches(self.kids(x)[i] as int, j);
                let ci = self.kids(x)[i] as int;
                assert(self.entries@[x].children@[i] == ci);
                assert(ci != cc);
                assert(now.accum(j) == mid1.accum(j));
                assert(mid1.linked(compose, j));
                match self.entries@[j].parent {
                    Some(p) => {
                        let p = p as int;
                        if j == ci {
                            assert(now.accum(p) == mid1.accum(p));
                        } else {
                            assert(self.reaches(ci, p));
                            self.lemma_disjoint(x, ci, cc, p);
                            self.lemma_reaches_frame(mid2, cc, p);
                            if self.under(x, k, p) {
                            } else {
                                self.lemma_under_intro(x, k, i, p);
                            }
                            assert(now.accum(p) == mid1.accum(p));
                        }
                        assert(now.linked(compose, j));
                    },
                    None => {
                        assert(now.linked(compose, j));
                    },
                }
            } else {
                assert(now.accum(j) == self.accum(j));
            }
        }
    }

    /// Pushes `x`'s effective transform (its parent transform composed with
    /// its local transform) down to its children, and theirs to their
    /// children, depth first.
    #[verifier::rlimit(40)]
    fn push_down<F: Fn(T, T) -> T>(&mut self, x: usize, compose: &F)
        requires
            old(self).wf(),
            x < old(self).len(),
            forall|a: T, b: T| compose.requires((a, b)),
        ensures
            final(self).wf(),
            final(self).same_but_accum(old(self)),
            forall|j: int|
                #![trigger final(self).accum(j)]
                0 <= j < old(self).len() ==> if old(self).below(x as int, j) {
                    final(self).linked(*compose, j)
                } else {
                    final(self).accum(j) == old(self).accum(j)
                },
        decreases old(self).bound@ - old(self).rank@[x as int],
    {
        let eff = compose(self.entries[x].parent_transform, self.entries[x].transform);
        let n = self.entries[x].children.len();
        let mut k: usize = 0;
        while k < n
            invariant
                old(self).wf(),
                self.wf(),
                self.same_but_accum(old(self)),
                x < self.len(),
                0 <= k <= n,
                n == old(self).kids(x as int).len(),
                forall|a: T, b: T| compose.requires((a, b)),
                compose.ensures((old(self).accum(x as int), old(self).local(x as int)), eff),
                old(self).pushed(self, x as int, k as int, *compose),
            decreases n - k,
        {
            let c = self.entries[x].children[k];
            let ghost mid1 = *self;
            self.entries[c].parent_transform = eff;
            let ghost mid2 = *self;
            proof {
                assert(mid2.same_but_accum(old(self)));
                assert(mid2.same_but_accum(&mid1));
                assert(mid2.wf());
            }
            self.push_down(c, compose);
            proof {
                old(self).lemma_push_step(&mid1, &mid2, self, x as int, k as int, *compose, eff);
            }
            k += 1;
        }
        proof {
            assert forall|j: int| 0 <= j < old(self).len() && old(self).below(x as int, j) implies old(self).under(x as int, n as int, j) by {
                old(self).lemma_below_under(x as int, j);
            }
            assert forall|j: int| 0 <= j < old(self).len() && old(self).under(x as int, n as int, j) implies old(self).below(x as int, j) by {
                old(self).lemma_under_elim(x as int, n as int, j);
            }
        }
    }

    /// Replaces the local transform of `id`, then brings the parent
    /// transform of every object below `id` up to date before returning.
    /// `compose(parent, child)` is the transform composition.
    pub fn set_transform<F: Fn(T, T) -> T>(&mut self, id: usize, transform: T, compose: &F)
        requires
            old(self).wf(),
            id < old(self).len(),
            forall|a: T, b: T| compose.requires((a, b)),
        ensures
            final(self).wf(),
            final(self).same_shape(old(self)),
            final(self).len() == old(self).len(),
            final(self).local(id as int) == transform,
            forall|j: int|
                #![trigger final(self).local(j)]
                0 <= j < old(self).len() && j != id ==> final(self).local(j) == old(self).local(j),
            final(self).same_payload(old(self)),
            forall|j: int|
                #![trigger final(self).accum(j)]
                0 <= j < old(self).len() ==> if old(self).below(id as int, j) {
                    final(self).linked(*compose, j)
                } else {
                    final(self).accum(j) == old(self).accum(j)
                },
            old(self).consistent(*compose) ==> final(self).consistent(*compose),
    {
        self.entries[id].transform = transform;
        let ghost mid = *self;
        proof {
            assert(mid.same_shape(old(self)));
            assert(mid.wf());
        }
        self.push_down(id, compose);
        proof {
            assert forall|j: int| 0 <= j < old(self).len() implies old(self).below(id as int, j)
                == #[trigger] self.below(id as int, j) by {
                old(self).lemma_reaches_frame(self, id as int, j);
            }
            assert forall|j: int| 0 <= j < old(self).len() implies (mid.below(id as int, j)
                == #[trigger] old(self).below(id as int, j)) by {
                old(self).lemma_reaches_frame(&mid, id as int, j);
            }
            if old(self).consistent(*compose) {
                assert forall|j: int| 0 <= j < self.len() implies #[trigger] self.linked(*compose, j) by {
                    assert(old(self).linked(*compose, j));
                    if !old(self).below(id as int, j) {
                        if let Some(p) = old(self).entries@[j].parent {
                            let p = p as int;
                            assert(old(self).entries@[j].parent is Some);
                            if old(self).reaches(id as int, p) {
                                old(self).lemma_reaches_rank(id as int, p);
                                assert(old(self).reaches(id as int, j));
                            }
                            old(self).lemma_reaches_frame(&mid, id as int, p);
                            assert(self.accum(p) == old(self).accum(p));
                        }
                    }
                }
            }
        }
    }

    /// Whether `a` is `j` or one of its ancestors, found by walking up the
    /// parent links from `j`.
    pub fn is_in_subtree(&self, a: usize, j: usize) -> (r: bool)
        requires
            self.wf(),
            a < self.len(),
            j < self.len(),
        ensures
            r == self.in_subtree(a as int, j as int),
    {
        let mut cur: usize = j;
        loop
            invariant
                self.wf(),
                cur < self.len(),
                self.reaches(a as int, j as int) == self.reaches(a as int, cur as int),
            decreases self.rank_of(cur as int),
        {
            if cur == a {
                return true;
            }
            match self.entries[cur].parent {
                None => {
                    return false;
                },
                Some(p) => {
                    cur = p;
                },
            }
        }
    }

    /// Attaches `child`, an object without parent, as the last child of
    /// `parent`, and brings the parent transforms of `child` and of all its
    /// descendants up to date. Refuses, changing nothing, when `child`
    /// already has a parent or when `child` is `parent` or one of its
    /// ancestors (which would close a cycle).
    pub fn attach<F: Fn(T, T) -> T>(&mut self, parent: usize, child: usize, compose: &F) -> (r: bool)
        requires
            old(self).wf(),
            parent < old(self).len(),
            child < old(self).len(),
            forall|a: T, b: T| compose.requires((a, b)),
        ensures
            final(self).wf(),
            final(self).len() == old(self).len(),
            r == (old(self).parent_of(child as int) is None && !old(self).in_subtree(
                child as int,
                parent as int,
            )),
            !r ==> *final(self) == *old(self),
            r ==> final(self).parent_of(child as int) == Some(parent),
            r ==> final(self).kids(parent as int) == old(self).kids(parent as int).push(child),
            r ==> final(self).attached(old(self), parent as int, child as int),
            r ==> forall|j: int|
                #![trigger final(self).accum(j)]
                0 <= j < old(self).len() ==> if old(self).in_subtree(child as int, j) {
                    final(self).linked(*compose, j)
                } else {
                    final(self).accum(j) == old(self).accum(j)
                },
            old(self).consistent(*compose) ==> final(self).consistent(*compose),
    {
        if self.entries[child].parent.is_some() {
            return false;
        }
        if self.is_in_subtree(child, parent) {
            return false;
        }
        let eff = compose(self.entries[parent].parent_transform, self.entries[parent].transform);
        let ghost s0 = *self;
        let ghost shift: nat = self.rank@[parent as int] + 1;
        let ghost new_rank = Seq::new(
            self.rank@.len(),
            |j: int| if s0.reaches(child as int, j) { s0.rank@[j] + shift } else { s0.rank@[j] },
        );
        self.entries[child].parent = Some(parent);
        self.entries[parent].children.push(child);
        self.entries[child].parent_transform = eff;
        self.rank = Ghost(new_rank);
        self.bound = Ghost(s0.bound@ + shift);
        let ghost s1 = *self;
        proof {
            s0.lemma_attach_wf(&s1, parent as int, child as int);
        }
        self.push_down(child, compose);
        proof {
            s0.lemma_attach_post(&s1, self, parent as int, child as int, *compose, eff);
        }
        true
    }

    /// Marks `x` and every object below it as visible; nothing else changes.
    /// Visibility is stamped here, not inherited when drawing.
    #[verifier::rlimit(40)]
    pub fn show(&mut self, x: usize)
        requires
            old(self).wf(),
            x < old(self).len(),
        ensures
            final(self).wf(),
            final(self).same_but_info(old(self)),
            final(self).len() == old(self).len(),
            forall|j: int|
                #![trigger final(self).info_of(j)]
                0 <= j < old(self).len() ==> final(self).info_of(j) == if old(self).in_subtree(
                    x as int,
                    j,
                ) {
                    old(self).info_of(j).shown()
                } else {
                    old(self).info_of(j)
                },
        decreases old(self).rank_bound() - old(self).rank_of(x as int),
    {
        self.entries[x].info.render_flags.render = true;
        let n = self.entries[x].children.len();
        let mut k: usize = 0;
        while k < n
            invariant
                old(self).wf(),
                self.wf(),
                self.same_but_info(old(self)),
                x < self.len(),
                0 <= k <= n,
                n == old(self).kids(x as int).len(),
                forall|j: int|
                    #![trigger self.info_of(j)]
                    0 <= j < self.len() ==> self.info_of(j) == if j == x || old(self).under(
                        x as int,
                        k as int,
                        j,
                    ) {
                        old(self).info_of(j).shown()
                    } else {
                        old(self).info_of(j)
                    },
            decreases n - k,
        {
            let c = self.entries[x].children[k];
            let ghost mid = *self;
            self.show(c);
            proof {
                old(self).lemma_show_step(&mid, self, x as int, k as int);
            }
            k += 1;
        }
        proof {
            assert forall|j: int| 0 <= j < old(self).len() && old(self).below(x as int, j) implies old(self).under(x as int, n as int, j) by {
                old(self).lemma_below_under(x as int, j);
            }
            assert forall|j: int| 0 <= j < old(self).len() implies #[trigger] self.info_of(j) == if old(self).in_subtree(
                x as int,
                j,
            ) {
                old(self).info_of(j).shown()
            } else {
                old(self).info_of(j)
            } by {
                if old(self).under(x as int, n as int, j) {
                    old(self).lemma_under_elim(x as int, n as int, j);
                }
                if old(self).below(x as int, j) {
                    old(self).lemma_below_under(x as int, j);
                }
            }
        }
    }

    /// Replaces the info of `id`.
    pub fn set_info(&mut self, id: usize, info: ObjectInfo)
        requires
            old(self).wf(),
            id < old(self).len(),
        ensures
            final(self).wf(),
            final(self).same_but_info(old(self)),
            final(self).info_of(id as int) == info,
            forall|j: int|
                #![trigger final(self).info_of(j)]
                0 <= j < old(self).len() && j != id ==> final(self).info_of(j) == old(self).info_of(j),
    {
        self.entries[id].info = info;
    }

    /// Replaces the mesh of `id` and the shader variant its material selects.
    pub fn set_mesh(&mut self, id: usize, mesh: Option<M>, shader: Option<ShaderType>)
        requires
            old(self).wf(),
            id < old(self).len(),
        ensures
            final(self).wf(),
            final(self).same_shape(old(self)),
            final(self).mesh_of(id as int) == mesh,
            final(self).shader_of(id as int) == shader,
            forall|j: int|
                #![trigger final(self).entries_at(j)]
                0 <= j < old(self).len() ==> {
                    &&& final(self).local(j) == old(self).local(j)
                    &&& final(self).accum(j) == old(self).accum(j)
                    &&& final(self).info_of(j) == old(self).info_of(j)
                    &&& (j != id ==> final(self).mesh_of(j) == old(self).mesh_of(j))
                    &&& (j != id ==> final(self).shader_of(j) == old(self).shader_of(j))
                },
    {
        self.entries[id].mesh = mesh;
        self.entries[id].shader = shader;
        proof {
            assert forall|j: int| 0 <= j < self.len() implies #[trigger] self.entries_at(j) == self.entries_at(j) by {
                assert(self.entries@[j] == self.entries@[j]);
            }
        }
    }

    /// Records that `id` is a light of kind `kind`.
    pub fn add_light(&mut self, id: usize, kind: LightType)
        requires
            old(self).wf(),
            id < old(self).len(),
        ensures
            final(self).wf(),
            final(self).light_seq() == old(self).light_seq().push((id, kind)),
            final(self).entries_unchanged(old(self)),
            final(self).len() == old(self).len(),
            forall|j: int| #![trigger final(self).local(j)] 0 <= j < old(self).len() ==> final(self).local(j) == old(self).local(j),
            forall|j: int| #![trigger final(self).accum(j)] 0 <= j < old(self).len() ==> final(self).accum(j) == old(self).accum(j),
            forall|j: int| #![trigger final(self).info_of(j)] 0 <= j < old(self).len() ==> final(self).info_of(j) == old(self).info_of(j),
            forall|j: int| #![trigger final(self).mesh_of(j)] 0 <= j < old(self).len() ==> final(self).mesh_of(j) == old(self).mesh_of(j),
            forall|j: int| #![trigger final(self).shader_of(j)] 0 <= j < old(self).len() ==> final(self).shader_of(j) == old(self).shader_of(j),
            forall|j: int| #![trigger final(self).parent_of(j)] 0 <= j < old(self).len() ==> final(self).parent_of(j) == old(self).parent_of(j),
    {
        self.lights.push((id, kind));
        proof {

            assert forall|k: int| 0 <= k < self.lights@.len() implies (#[trigger] self.lights@[k]).0 < self.len() by {
                if k < old(self).lights@.len() {
                    assert(old(self).lights@[k] == self.lights@[k]);
                }
            }
        }
    }

    /// Every registered light, in registration order, with the id of the
    /// object that carries it.
    pub fn lights(&self) -> (r: &Vec<(usize, LightType)>)
        ensures
            r@ == self.light_seq(),
    {
        &self.lights
    }

    /// Appends the subtree of `x`, depth first, to `out`.
    fn collect_preorder(&self, x: usize, out: &mut Vec<usize>)
        requires
            self.wf(),
            x < self.len(),
            forall|i: int| 0 <= i < old(out)@.len() ==> #[trigger] old(out)@[i] < self.len(),
        ensures
            final(out)@ == old(out)@ + self.preorder(x as int),
            forall|i: int| 0 <= i < final(out)@.len() ==> #[trigger] final(out)@[i] < self.len(),
        decreases self.rank_bound() - self.rank_of(x as int),
    {
        out.push(x);
        let n = self.entries[x].children.len();
        let mut k: usize = 0;
        while k < n
            invariant
                self.wf(),
                x < self.len(),
                0 <= k <= n,
                n == self.kids(x as int).len(),
                old(out)@ + self.preorder(x as int) == out@ + self.preorder_kids(x as int, k as int),
                forall|i: int| 0 <= i < out@.len() ==> #[trigger] out@[i] < self.len(),
            decreases n - k,
        {
            let c = self.entries[x].children[k];
            proof {
                assert(self.entries@[x as int].children@[k as int] == c);
                assert(self.entries@[c as int].parent is Some);
                assert(self.rank_of(c as int) < self.rank_bound());
            }
            self.collect_preorder(c, out);
            proof {
                assert(old(out)@ + self.preorder(x as int) =~= out@ + self.preorder_kids(x as int, k + 1));
            }
            k += 1;
        }
        proof {
            assert(out@ =~= out@ + self.preorder_kids(x as int, n as int));
        }
    }

    /// The subtree of `root` in depth-first order: `root` first, then each
    /// child's subtree in attachment order. This is the order picking tests
    /// objects in.
    pub fn pick_order(&self, root: usize) -> (r: Vec<usize>)
        requires
            self.wf(),
            root < self.len(),
        ensures
            r@ == self.preorder(root as int),
            forall|i: int| 0 <= i < r@.len() ==> #[trigger] r@[i] < self.len(),
    {
        let mut out: Vec<usize> = Vec::new();
        self.collect_preorder(root, &mut out);
        proof {
            assert(out@ =~= self.preorder(root as int));
        }
        out
    }

    /// Picking below `root`: `hits[i]` tells whether the ray meets object
    /// `i`'s hull. Returns the first object of the depth-first order that
    /// has a mesh and was hit (the first hit in traversal order, not the
    /// nearest), or `None`. Objects without mesh are skipped.
    pub fn pick(&self, root: usize, hits: &Vec<bool>) -> (r: Option<usize>)
        requires
            self.wf(),
            root < self.len(),
            hits@.len() == self.len(),
        ensures
            r == self.first_hit(self.preorder(root as int), hits@),
    {
        let order = self.pick_order(root);
        proof {
            assert(order@.subrange(0, order@.len() as int) =~= order@);
        }
        let mut k: usize = 0;
        while k < order.len()
            invariant
                self.wf(),
                hits@.len() == self.len(),
                order@ == self.preorder(root as int),
                0 <= k <= order@.len(),
                forall|i: int| 0 <= i < order@.len() ==> #[trigger] order@[i] < self.len(),
                self.first_hit(order@, hits@) == self.first_hit(order@.subrange(k as int, order@.len() as int), hits@),
            decreases order.len() - k,
        {
            let id = order[k];
            proof {
                let rest = order@.subrange(k as int, order@.len() as int);
                assert(rest[0] == id);
                assert(rest.drop_first() =~= order@.subrange(k + 1, order@.len() as int));
            }
            if self.entries[id].mesh.is_some() && hits[id] {
                return Some(id);
            }
            k += 1;
        }
        None
    }

    /// The object's local transform.
    pub fn transform(&self, id: usize) -> (r: T)
        requires
            id < self.len(),
        ensures
            r == self.local(id as int),
    {
        self.entries[id].transform
    }

    /// The accumulated transform of the object's ancestors.
    pub fn parent_transform(&self, id: usize) -> (r: T)
        requires
            id < self.len(),
        ensures
            r == self.accum(id as int),
    {
        self.entries[id].parent_transform
    }

    /// The transform an object without parent carries as its parent transform.
    pub fn identity(&self) -> (r: T)
        ensures
            r == self.identity_value(),
    {
        self.identity
    }

    pub fn info(&self, id: usize) -> (r: &ObjectInfo)
        requires
            id < self.len(),
        ensures
            *r == self.info_of(id as int),
    {
        &self.entries[id].info
    }

    pub fn mesh(&self, id: usize) -> (r: &Option<M>)
        requires
            id < self.len(),
        ensures
            *r == self.mesh_of(id as int),
    {
        &self.entries[id].mesh
    }

    /// The shader variant of the object's material, if it has a mesh.
    pub fn shader(&self, id: usize) -> (r: Option<ShaderType>)
        requires
            id < self.len(),
        ensures
            r == self.shader_of(id as int),
    {
        self.entries[id].shader
    }

    /// The object's children, in the order they were attached.
    pub fn children(&self, id: usize) -> (r: &Vec<usize>)
        requires
            id < self.len(),
        ensures
            r@ == self.kids(id as int),
    {
        &self.entries[id].children
    }

    pub fn parent(&self, id: usize) -> (r: Option<usize>)
        requires
            id < self.len(),
        ensures
            r == self.parent_of(id as int),
    {
        self.entries[id].parent
    }

    /// Number of objects.
    pub fn count(&self) -> (r: usize)
        ensures
            r == self.len(),
    {
        self.entries.len()
    }
}

impl<T: Copy, M: Clone> Storage<T, M> {
    /// A new object with a copy of the mesh, the local transform and the
    /// info of `id`. It has no parent and no children, and shares nothing
    /// with `id`: changing one later leaves the other as it is.
    pub fn duplicate(&mut self, id: usize) -> (r: usize)
        requires
            old(self).wf(),
            id < old(self).len(),
            old(self).len() < usize::MAX,
        ensures
            final(self).wf(),
            r == old(self).len(),
            final(self).len() == old(self).len() + 1,
            final(self).extends(old(self)),
            final(self).identity_value() == old(self).identity_value(),
            final(self).local(r as int) == old(self).local(id as int),
            final(self).info_of(r as int) == old(self).info_of(id as int),
            final(self).shader_of(r as int) == old(self).shader_of(id as int),
            final(self).mesh_of(r as int) is Some == old(self).mesh_of(id as int) is Some,
            old(self).mesh_of(id as int) is Some ==> cloned::<M>(
                old(self).mesh_of(id as int)->0,
                final(self).mesh_of(r as int)->0,
            ),
            final(self).accum(r as int) == old(self).identity_value(),
            final(self).parent_of(r as int) == None::<usize>,
            final(self).kids(r as int) == Seq::<usize>::empty(),
    {
        let mesh = self.entries[id].mesh.clone();
        let shader = self.entries[id].shader;
        let transform = self.entries[id].transform;
        let info = self.entries[id].info.duplicate();
        self.add(mesh, shader, transform, info)
    }
}

} // verus!
