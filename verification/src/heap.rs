//! The managed heap: an arena of indexed cells holding script objects that
//! may reference one another, with a tracing mark-and-sweep collector.
//! After a collection, every cell reachable from the roots is untouched
//! and every unreachable cell is reclaimed — a cycle of objects with no
//! path from the roots does not survive. Handles to non-traceable
//! resources (channels, workers, pixel buffers) are plain indices into
//! their own tables, opaque leaves the tracer does not follow.

use vstd::prelude::*;
use crate::value::{Value, ObjId};
use crate::property::{NameId, ClassId};

verus! {

/// What kind of object a heap cell holds. The indices carried by the
/// resource kinds point into subsystem tables outside the heap and are
/// not traced.
#[derive(Debug, Clone, Copy, PartialEq, Eq, Structural)]
pub enum ObjKind {
    /// A plain script object.
    Plain,
    /// An array object; its elements live in the cell's element list.
    Array,
    /// A class object, standing for the class itself.
    ClassObj(ClassId),
    /// A message-channel endpoint.
    Channel(usize),
    /// A worker handle.
    Worker(usize),
    /// A bitmap's pixel buffer.
    Bitmap(usize),
    /// A node of an XML tree.
    XmlNode(usize),
}

/// One heap object: its class, its fixed slots, its dynamic property bag
/// (insertion order preserved for enumeration), its array elements, and
/// its kind.
#[derive(Debug, Clone)]
pub struct HeapObject {
    pub class: ClassId,
    pub slots: Vec<Value>,
    pub dynamic: Vec<(NameId, Value)>,
    pub elements: Vec<Value>,
    pub kind: ObjKind,
}

/// Whether the object holds a reference to cell `b`.
pub open spec fn obj_has_ref(o: HeapObject, b: ObjId) -> bool {
    ||| exists|i: int| 0 <= i < o.slots@.len() && o.slots@[i] == Value::Object(b)
    ||| exists|i: int| 0 <= i < o.dynamic@.len() && (#[trigger] o.dynamic@[i]).1
        == Value::Object(b)
    ||| exists|i: int| 0 <= i < o.elements@.len() && o.elements@[i] == Value::Object(b)
}

/// Whether cell `a` holds an object referencing cell `b`.
pub open spec fn has_edge(cells: Seq<Option<HeapObject>>, a: ObjId, b: ObjId) -> bool {
    0 <= a < cells.len() && cells[a as int] is Some && obj_has_ref(cells[a as int].unwrap(), b)
}

/// A path from a root to `x` along object references.
pub open spec fn path_ok(cells: Seq<Option<HeapObject>>, roots: Seq<ObjId>, p: Seq<ObjId>,
    x: ObjId) -> bool {
    &&& p.len() > 0
    &&& roots.contains(p[0])
    &&& p.last() == x
    &&& forall|k: int| 0 <= k < p.len() - 1 ==> has_edge(cells, #[trigger] p[k], p[k + 1])
}

/// Whether `x` is reachable from the roots.
pub open spec fn reachable(cells: Seq<Option<HeapObject>>, roots: Seq<ObjId>, x: ObjId)
    -> bool {
    exists|p: Seq<ObjId>| path_ok(cells, roots, p, x)
}

/// A cell an edge leads to from a reachable cell is reachable.
pub proof fn lemma_reachable_step(cells: Seq<Option<HeapObject>>, roots: Seq<ObjId>, a: ObjId,
    b: ObjId)
    requires
        reachable(cells, roots, a),
        has_edge(cells, a, b),
    ensures
        reachable(cells, roots, b),
{
    let p = choose|p: Seq<ObjId>| path_ok(cells, roots, p, a);
    let q = p.push(b);
    assert(q[0] == p[0]);
    assert forall|k: int| 0 <= k < q.len() - 1 implies has_edge(cells, #[trigger] q[k],
        q[k + 1]) by {
        if k < p.len() - 1 {
            assert(q[k] == p[k] && q[k + 1] == p[k + 1]);
        } else {
            assert(q[k] == p.last() && q[k + 1] == b);
        }
    }
    assert(path_ok(cells, roots, q, b));
}

/// A root is reachable.
pub proof fn lemma_reachable_root(cells: Seq<Option<HeapObject>>, roots: Seq<ObjId>, r: ObjId)
    requires
        roots.contains(r),
    ensures
        reachable(cells, roots, r),
{
    let p = seq![r];
    assert(path_ok(cells, roots, p, r));
}

/// The number of unmarked positions.
pub open spec fn count_false(s: Seq<bool>) -> int
    decreases s.len(),
{
    if s.len() == 0 {
        0
    } else {
        (if s[0] { 0int } else { 1int }) + count_false(s.drop_first())
    }
}

/// Marking an unmarked position lowers the unmarked count by one.
pub proof fn lemma_count_false_update(s: Seq<bool>, i: int)
    requires
        0 <= i < s.len(),
        !s[i],
    ensures
        count_false(s.update(i, true)) == count_false(s) - 1,
    decreases s.len(),
{
    if i == 0 {
        assert(s.update(0, true).drop_first() =~= s.drop_first());
    } else {
        assert(s.update(i, true).drop_first() =~= s.drop_first().update(i - 1, true));
        lemma_count_false_update(s.drop_first(), i - 1);
    }
}

/// The unmarked count is nonnegative.
pub proof fn lemma_count_false_nonneg(s: Seq<bool>)
    ensures
        count_false(s) >= 0,
    decreases s.len(),
{
    if s.len() > 0 {
        lemma_count_false_nonneg(s.drop_first());
    }
}

/// A marked set that contains the valid roots and is closed under edges
/// contains every reachable valid cell.
pub proof fn lemma_closed_contains_reachable(cells: Seq<Option<HeapObject>>,
    roots: Seq<ObjId>, marked: Seq<bool>, x: ObjId)
    requires
        marked.len() == cells.len(),
        forall|r: ObjId| roots.contains(r) && r < cells.len() ==> marked[r as int],
        forall|a: ObjId, b: ObjId| a < cells.len() && marked[a as int]
            && #[trigger] has_edge(cells, a, b) && b < cells.len()
            ==> marked[b as int],
        reachable(cells, roots, x),
        x < cells.len(),
    ensures
        marked[x as int],
{
    let p = choose|p: Seq<ObjId>| path_ok(cells, roots, p, x);
    lemma_path_marked(cells, roots, marked, p, x);
}

proof fn lemma_path_marked(cells: Seq<Option<HeapObject>>, roots: Seq<ObjId>,
    marked: Seq<bool>, p: Seq<ObjId>, x: ObjId)
    requires
        marked.len() == cells.len(),
        forall|r: ObjId| roots.contains(r) && r < cells.len() ==> marked[r as int],
        forall|a: ObjId, b: ObjId| a < cells.len() && marked[a as int]
            && #[trigger] has_edge(cells, a, b) && b < cells.len()
            ==> marked[b as int],
        path_ok(cells, roots, p, x),
        x < cells.len(),
    ensures
        marked[x as int],
    decreases p.len(),
{
    if p.len() == 1 {
        assert(p[0] == x);
    } else {
        let q = p.drop_last();
        let y = p[p.len() - 2];
        assert(has_edge(cells, y, x));
        assert(y < cells.len());
        assert(q.last() == y);
        assert forall|k: int| 0 <= k < q.len() - 1 implies has_edge(cells, #[trigger] q[k],
            q[k + 1]) by {
            assert(q[k] == p[k] && q[k + 1] == p[k + 1]);
        }
        assert(path_ok(cells, roots, q, y));
        lemma_path_marked(cells, roots, marked, q, y);
    }
}

/// The managed heap.
pub struct Heap {
    cells: Vec<Option<HeapObject>>,
}

impl Heap {
    pub closed spec fn spec_cells(&self) -> Seq<Option<HeapObject>> {
        self.cells@
    }

    pub fn new() -> (r: Self)
        ensures
            r.spec_cells().len() == 0,
    {
        Heap { cells: Vec::new() }
    }

    pub fn cell_count(&self) -> (r: usize)
        ensures
            r == self.spec_cells().len(),
    {
        self.cells.len()
    }

    /// Allocates a cell for the object, reusing a reclaimed cell if one
    /// exists.
    pub fn allocate(&mut self, obj: HeapObject) -> (r: ObjId)
        ensures
            r < final(self).spec_cells().len(),
            final(self).spec_cells()[r as int] == Some(obj),
            old(self).spec_cells().len() <= final(self).spec_cells().len(),
            forall|i: int| 0 <= i < old(self).spec_cells().len() && i != r
                ==> final(self).spec_cells()[i] == old(self).spec_cells()[i],
            r < old(self).spec_cells().len()
                ==> old(self).spec_cells()[r as int] is None,
    {
        let n = self.cells.len();
        let mut i: usize = 0;
        while i < n
            invariant
                i <= n,
                n == self.cells@.len(),
                *self == *old(self),
            decreases n - i,
        {
            if self.cells[i].is_none() {
                self.cells.set(i, Some(obj));
                return i;
            }
            i = i + 1;
        }
        self.cells.push(Some(obj));
        n
    }

    /// Reads the object in a cell.
    pub fn get(&self, id: ObjId) -> (r: Option<&HeapObject>)
        ensures
            match r {
                Some(o) => id < self.spec_cells().len()
                    && self.spec_cells()[id as int] == Some(*o),
                None => id >= self.spec_cells().len()
                    || self.spec_cells()[id as int] is None,
            },
    {
        if id < self.cells.len() {
            self.cells[id].as_ref()
        } else {
            None
        }
    }

    /// Replaces the object in a live cell.
    pub fn set(&mut self, id: ObjId, obj: HeapObject)
        requires
            id < old(self).spec_cells().len(),
            old(self).spec_cells()[id as int] is Some,
        ensures
            final(self).spec_cells() == old(self).spec_cells().update(id as int, Some(obj)),
    {
        self.cells.set(id, Some(obj));
    }

    /// Collects garbage: marks every cell reachable from the roots, then
    /// reclaims all others. Reachable cells are untouched; unreachable
    /// cells — cycles included — are gone.
    pub fn collect(&mut self, roots: &Vec<ObjId>)
        ensures
            final(self).spec_cells().len() == old(self).spec_cells().len(),
            forall|i: ObjId| i < old(self).spec_cells().len()
                && #[trigger] reachable(old(self).spec_cells(), roots@, i)
                ==> final(self).spec_cells()[i as int]
                    == old(self).spec_cells()[i as int],
            forall|i: ObjId| i < old(self).spec_cells().len()
                && !(#[trigger] reachable(old(self).spec_cells(), roots@, i))
                ==> final(self).spec_cells()[i as int] is None,
    {
        let n = self.cells.len();
        let mut marked: Vec<bool> = Vec::new();
        let mut i: usize = 0;
        while i < n
            invariant
                i <= n,
                marked@.len() == i,
                forall|k: int| 0 <= k < i ==> !marked@[k],
                *self == *old(self),
                n == self.cells@.len(),
            decreases n - i,
        {
            marked.push(false);
            i = i + 1;
        }
        // mark the roots
        let n_roots = roots.len();
        let mut j: usize = 0;
        while j < n_roots
            invariant
                j <= n_roots,
                n_roots == roots@.len(),
                marked@.len() == n,
                *self == *old(self),
                n == self.cells@.len(),
                forall|t: int| 0 <= t < n && marked@[t]
                    ==> reachable(self.cells@, roots@, t as ObjId),
                forall|m: int| 0 <= m < j && #[trigger] roots@[m] < n
                    ==> marked@[roots@[m] as int],
            decreases n_roots - j,
        {
            let r = roots[j];
            if r < n {
                proof {
                    assert(roots@[j as int] == r);
                    assert(roots@.contains(r));
                    lemma_reachable_root(self.cells@, roots@, r);
                }
                marked.set(r, true);
            }
            j = j + 1;
        }
        proof {
            assert forall|r: ObjId| roots@.contains(r) && r < n implies
                marked@[r as int] by {
                let m = choose|m: int| 0 <= m < roots@.len() && roots@[m] == r;
            }
            lemma_count_false_nonneg(marked@);
        }
        // propagate marks to a fixed point
        let mut changed = true;
        while changed
            invariant
                marked@.len() == n,
                *self == *old(self),
                n == self.cells@.len(),
                forall|t: int| 0 <= t < n && marked@[t]
                    ==> reachable(self.cells@, roots@, t as ObjId),
                forall|r: ObjId| roots@.contains(r) && r < n ==> marked@[r as int],
                !changed ==> forall|a: ObjId, b: ObjId| a < n && marked@[a as int]
                    && #[trigger] has_edge(self.cells@, a, b) && b < n
                    ==> marked@[b as int],
            decreases 2 * count_false(marked@) + (if changed { 1int } else { 0int }),
        {
            changed = false;
            let ghost marked_at_pass_start = marked@;
            let mut a: usize = 0;
            while a < n
                invariant
                    a <= n,
                    marked@.len() == n,
                    *self == *old(self),
                    n == self.cells@.len(),
                    forall|t: int| 0 <= t < n && marked@[t]
                        ==> reachable(self.cells@, roots@, t as ObjId),
                    forall|r: ObjId| roots@.contains(r) && r < n ==> marked@[r as int],
                    !changed ==> marked@ == marked_at_pass_start,
                    changed ==> count_false(marked@) < count_false(marked_at_pass_start),
                    count_false(marked@) <= count_false(marked_at_pass_start),
                    !changed ==> forall|x: ObjId, b: ObjId| x < a && marked@[x as int]
                        && #[trigger] has_edge(self.cells@, x, b) && b < n
                        ==> marked@[b as int],
                decreases n - a,
            {
                if marked[a] {
                    let cell = &self.cells[a];
                    match cell {
                        Some(obj) => {
                            proof {
                                assert(reachable(self.cells@, roots@, a as ObjId));
                            }
                            proof {
                                let o = self.cells@[a as int].unwrap();
                                assert forall|i: int| 0 <= i < o.slots@.len()
                                    && (#[trigger] o.slots@[i]) is Object implies
                                    has_edge(self.cells@, a as ObjId,
                                        o.slots@[i]->Object_0) by {
                                    assert(o.slots@[i] == Value::Object(o.slots@[i]->Object_0));
                                    assert(obj_has_ref(o, o.slots@[i]->Object_0));
                                }
                                assert forall|i: int| 0 <= i < o.dynamic@.len()
                                    && (#[trigger] o.dynamic@[i]).1 is Object implies
                                    has_edge(self.cells@, a as ObjId,
                                        o.dynamic@[i].1->Object_0) by {
                                    assert(o.dynamic@[i].1
                                        == Value::Object(o.dynamic@[i].1->Object_0));
                                    assert(obj_has_ref(o, o.dynamic@[i].1->Object_0));
                                }
                                assert forall|i: int| 0 <= i < o.elements@.len()
                                    && (#[trigger] o.elements@[i]) is Object implies
                                    has_edge(self.cells@, a as ObjId,
                                        o.elements@[i]->Object_0) by {
                                    assert(o.elements@[i]
                                        == Value::Object(o.elements@[i]->Object_0));
                                    assert(obj_has_ref(o, o.elements@[i]->Object_0));
                                }
                            }
                            Self::mark_targets(&mut marked, &obj.slots, &mut changed,
                                Ghost(self.cells@), Ghost(roots@), Ghost(a as ObjId),
                                Ghost(marked_at_pass_start));
                            Self::mark_dynamic_targets(&mut marked, &obj.dynamic,
                                &mut changed, Ghost(self.cells@), Ghost(roots@),
                                Ghost(a as ObjId), Ghost(marked_at_pass_start));
                            Self::mark_targets(&mut marked, &obj.elements, &mut changed,
                                Ghost(self.cells@), Ghost(roots@), Ghost(a as ObjId),
                                Ghost(marked_at_pass_start));
                        },
                        None => {},
                    }
                }
                a = a + 1;
            }
            proof {
                lemma_count_false_nonneg(marked@);
            }
        }
        // sweep
        proof {
            assert forall|x: ObjId| x < n && reachable(self.cells@, roots@, x) implies
                marked@[x as int] by {
                lemma_closed_contains_reachable(self.cells@, roots@, marked@, x);
            }
        }
        let ghost cells_before = self.cells@;
        let mut s: usize = 0;
        while s < n
            invariant
                s <= n,
                marked@.len() == n,
                n == self.cells@.len(),
                cells_before == old(self).spec_cells(),
                forall|i: int| s <= i < n ==> self.cells@[i] == cells_before[i],
                forall|i: int| 0 <= i < s && marked@[i] ==> self.cells@[i] == cells_before[i],
                forall|i: int| 0 <= i < s && !marked@[i] ==> self.cells@[i] is None,
                forall|x: ObjId| x < n && reachable(cells_before, roots@, x)
                    ==> marked@[x as int],
                forall|t: int| 0 <= t < n && marked@[t]
                    ==> reachable(cells_before, roots@, t as ObjId),
            decreases n - s,
        {
            if !marked[s] {
                self.cells.set(s, None);
            }
            s = s + 1;
        }
        proof {
            assert forall|i: ObjId| i < n
                && !(#[trigger] reachable(cells_before, roots@, i)) implies
                self.cells@[i as int] is None by {
                if marked@[i as int] {
                    assert(reachable(cells_before, roots@, i));
                }
            }
        }
    }

    /// Marks the heap targets of the object references among `vals`,
    /// raising `changed` for every fresh mark. Every fresh mark is an
    /// object referenced from `vals`, whose owner `src` is reachable, so
    /// marks never leave the reachable set.
    /// As `mark_targets`, over the values of a dynamic property bag.
    fn mark_dynamic_targets(marked: &mut Vec<bool>, vals: &Vec<(crate::property::NameId, Value)>,
        changed: &mut bool,
        Ghost(cells): Ghost<Seq<Option<HeapObject>>>, Ghost(roots): Ghost<Seq<ObjId>>,
        Ghost(src): Ghost<ObjId>, Ghost(pass_start): Ghost<Seq<bool>>)
        requires
            old(marked)@.len() == cells.len(),
            reachable(cells, roots, src),
            src < cells.len(),
            cells[src as int] is Some,
            forall|i: int| 0 <= i < vals@.len() && (#[trigger] vals@[i]).1 is Object
                ==> has_edge(cells, src, vals@[i].1->Object_0),
            forall|t: int| 0 <= t < old(marked)@.len() && old(marked)@[t]
                ==> reachable(cells, roots, t as ObjId),
            !*old(changed) ==> old(marked)@ == pass_start,
            *old(changed) ==> count_false(old(marked)@) < count_false(pass_start),
            count_false(old(marked)@) <= count_false(pass_start),
        ensures
            final(marked)@.len() == old(marked)@.len(),
            forall|t: int| 0 <= t < final(marked)@.len() && final(marked)@[t]
                ==> reachable(cells, roots, t as ObjId),
            forall|t: int| 0 <= t < old(marked)@.len() && old(marked)@[t]
                ==> final(marked)@[t],
            forall|i: int| 0 <= i < vals@.len() && (#[trigger] vals@[i]).1 is Object
                && vals@[i].1->Object_0 < final(marked)@.len()
                ==> final(marked)@[vals@[i].1->Object_0 as int],
            !*final(changed) ==> final(marked)@ == pass_start,
            *final(changed) ==> count_false(final(marked)@) < count_false(pass_start),
            count_false(final(marked)@) <= count_false(pass_start),
            *old(changed) ==> *final(changed),
    {
        let nv = vals.len();
        let mut i: usize = 0;
        while i < nv
            invariant
                i <= nv,
                nv == vals@.len(),
                marked@.len() == cells.len(),
                old(marked)@.len() == cells.len(),
                forall|t: int| 0 <= t < marked@.len() && marked@[t]
                    ==> reachable(cells, roots, t as ObjId),
                forall|t: int| 0 <= t < old(marked)@.len() && old(marked)@[t]
                    ==> marked@[t],
                forall|k: int| 0 <= k < i && (#[trigger] vals@[k]).1 is Object
                    && vals@[k].1->Object_0 < marked@.len()
                    ==> marked@[vals@[k].1->Object_0 as int],
                forall|k: int| 0 <= k < vals@.len() && (#[trigger] vals@[k]).1 is Object
                    ==> has_edge(cells, src, vals@[k].1->Object_0),
                reachable(cells, roots, src),
                !*changed ==> marked@ == pass_start,
                *changed ==> count_false(marked@) < count_false(pass_start),
                count_false(marked@) <= count_false(pass_start),
                *old(changed) ==> *changed,
            decreases nv - i,
        {
            match &vals[i].1 {
                Value::Object(t) => {
                    let t = *t;
                    if t < marked.len() {
                        if !marked[t] {
                            proof {
                                lemma_reachable_step(cells, roots, src, t);
                                lemma_count_false_update(marked@, t as int);
                            }
                            marked.set(t, true);
                            *changed = true;
                        }
                    }
                },
                _ => {},
            }
            i = i + 1;
        }
    }

    fn mark_targets(marked: &mut Vec<bool>, vals: &Vec<Value>, changed: &mut bool,
        Ghost(cells): Ghost<Seq<Option<HeapObject>>>, Ghost(roots): Ghost<Seq<ObjId>>,
        Ghost(src): Ghost<ObjId>, Ghost(pass_start): Ghost<Seq<bool>>)
        requires
            old(marked)@.len() == cells.len(),
            reachable(cells, roots, src),
            src < cells.len(),
            cells[src as int] is Some,
            forall|i: int| 0 <= i < vals@.len() && (#[trigger] vals@[i]) is Object
                ==> has_edge(cells, src, vals@[i]->Object_0),
            forall|t: int| 0 <= t < old(marked)@.len() && old(marked)@[t]
                ==> reachable(cells, roots, t as ObjId),
            !*old(changed) ==> old(marked)@ == pass_start,
            *old(changed) ==> count_false(old(marked)@) < count_false(pass_start),
            count_false(old(marked)@) <= count_false(pass_start),
        ensures
            final(marked)@.len() == old(marked)@.len(),
            forall|t: int| 0 <= t < final(marked)@.len() && final(marked)@[t]
                ==> reachable(cells, roots, t as ObjId),
            forall|t: int| 0 <= t < old(marked)@.len() && old(marked)@[t]
                ==> final(marked)@[t],
            forall|i: int| 0 <= i < vals@.len() && (#[trigger] vals@[i]) is Object
                && vals@[i]->Object_0 < final(marked)@.len()
                ==> final(marked)@[vals@[i]->Object_0 as int],
            !*final(changed) ==> final(marked)@ == pass_start,
            *final(changed) ==> count_false(final(marked)@) < count_false(pass_start),
            count_false(final(marked)@) <= count_false(pass_start),
            *old(changed) ==> *final(changed),
    {
        let nv = vals.len();
        let mut i: usize = 0;
        while i < nv
            invariant
                i <= nv,
                nv == vals@.len(),
                marked@.len() == cells.len(),
                old(marked)@.len() == cells.len(),
                forall|t: int| 0 <= t < marked@.len() && marked@[t]
                    ==> reachable(cells, roots, t as ObjId),
                forall|t: int| 0 <= t < old(marked)@.len() && old(marked)@[t]
                    ==> marked@[t],
                forall|k: int| 0 <= k < i && (#[trigger] vals@[k]) is Object
                    && vals@[k]->Object_0 < marked@.len()
                    ==> marked@[vals@[k]->Object_0 as int],
                forall|k: int| 0 <= k < vals@.len() && (#[trigger] vals@[k]) is Object
                    ==> has_edge(cells, src, vals@[k]->Object_0),
                reachable(cells, roots, src),
                !*changed ==> marked@ == pass_start,
                *changed ==> count_false(marked@) < count_false(pass_start),
                count_false(marked@) <= count_false(pass_start),
                *old(changed) ==> *changed,
            decreases nv - i,
        {
            match &vals[i] {
                Value::Object(t) => {
                    let t = *t;
                    if t < marked.len() {
                        if !marked[t] {
                            proof {
                                lemma_reachable_step(cells, roots, src, t);
                                lemma_count_false_update(marked@, t as int);
                            }
                            marked.set(t, true);
                            *changed = true;
                        }
                    }
                },
                _ => {},
            }
            i = i + 1;
        }
    }
}


} // verus!
