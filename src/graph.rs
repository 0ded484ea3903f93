use vstd::prelude::*;

use crate::geometry::Point;
use crate::text::{decimal, decimal_string, lemma_decimal_injective, lemma_decimal_len};

verus! {

/// One electrically connected node.
#[derive(Clone, Debug)]
pub struct Net {
    /// A label, a power symbol's value, or after finalization a number.
    pub identifier: Option<String>,
    /// The electrical role, such as a pin's type or `no_connect`; empty when unknown.
    pub kind: String,
    /// The point at which the net was created.
    pub coords: Point,
}

/// The point-to-net map that a run of (point, net) entries describes.
pub open spec fn entries_map(s: Seq<(Point, usize)>) -> Map<Point, usize>
    decreases s.len(),
{
    if s.len() == 0 {
        Map::empty()
    } else {
        entries_map(s.drop_last()).insert(s.last().0, s.last().1)
    }
}

/// The text of an optional identifier.
pub open spec fn id_view(id: Option<String>) -> Option<Seq<char>> {
    match id {
        Some(s) => Some(s@),
        None => None,
    }
}

/// `new` is `old` with one net appended, holding the given values.
pub open spec fn appended(old: Seq<Net>, new: Seq<Net>, id: Option<Seq<char>>, kind: Seq<char>, p: Point) -> bool {
    &&& new.len() == old.len() + 1
    &&& new.drop_last() == old
    &&& id_view(new.last().identifier) == id
    &&& new.last().kind@ == kind
    &&& new.last().coords == p
}

/// The number of nets before position `i` that have no identifier.
pub open spec fn unnamed_before(nets: Seq<Net>, i: int) -> nat
    decreases i,
{
    if i <= 0 {
        0
    } else if nets[i - 1].identifier is None {
        unnamed_before(nets, i - 1) + 1
    } else {
        unnamed_before(nets, i - 1)
    }
}

/// The identifier that finalization gives the net at position `i`.
pub open spec fn final_identifier(nets: Seq<Net>, i: int) -> Seq<char> {
    match nets[i].identifier {
        Some(id) => id@,
        None => decimal(unnamed_before(nets, i) + 1),
    }
}

proof fn lemma_unnamed_monotone(nets: Seq<Net>, i: int, j: int)
    requires
        0 <= i <= j <= nets.len(),
    ensures
        unnamed_before(nets, i) <= unnamed_before(nets, j),
        i < j && nets[i].identifier is None ==> unnamed_before(nets, i) < unnamed_before(nets, j),
    decreases j - i,
{
    if i < j {
        lemma_unnamed_monotone(nets, i, j - 1);
    }
}

/// After finalization every net without an identifier holds a number:
/// the first such net gets `1`, and two such nets never share one.
pub proof fn lemma_synthesized_identifiers(nets: Seq<Net>, i: int, j: int)
    requires
        0 <= i < j < nets.len(),
        nets[i].identifier is None,
        nets[j].identifier is None,
    ensures
        final_identifier(nets, i) == decimal(unnamed_before(nets, i) + 1),
        final_identifier(nets, i) != final_identifier(nets, j),
        (forall|k: int| 0 <= k < i ==> (#[trigger] nets[k].identifier) is Some) ==> final_identifier(nets, i) == seq!['1'],
{
    lemma_unnamed_monotone(nets, i, j);
    if final_identifier(nets, i) == final_identifier(nets, j) {
        lemma_decimal_injective(unnamed_before(nets, i) + 1, unnamed_before(nets, j) + 1);
    }
    if forall|k: int| 0 <= k < i ==> (#[trigger] nets[k].identifier) is Some {
        lemma_none_unnamed(nets, i);
    }
}

proof fn lemma_none_unnamed(nets: Seq<Net>, i: int)
    requires
        0 <= i <= nets.len(),
        forall|k: int| 0 <= k < i ==> (#[trigger] nets[k].identifier) is Some,
    ensures
        unnamed_before(nets, i) == 0,
    decreases i,
{
    if i > 0 {
        lemma_none_unnamed(nets, i - 1);
    }
}

/// After finalization no identifier is empty, provided the identifiers
/// already present are not.
pub proof fn lemma_identifiers_non_empty(nets: Seq<Net>, i: int)
    requires
        0 <= i < nets.len(),
        forall|k: int| 0 <= k < nets.len() && (#[trigger] nets[k].identifier) is Some
            ==> nets[k].identifier.unwrap()@.len() > 0,
    ensures
        final_identifier(nets, i).len() > 0,
{
    if nets[i].identifier is None {
        lemma_decimal_len(unnamed_before(nets, i) + 1);
    }
}

/// The nets of a schematic and the index from points to nets. Nets are only
/// appended; a point, once registered, keeps its net.
pub struct NetRegistry {
    nets: Vec<Net>,
    nodes: Vec<(Point, usize)>,
}

impl NetRegistry {
    /// The nets, in creation order.
    pub closed spec fn nets(&self) -> Seq<Net> {
        self.nets@
    }

    /// The net index of each registered point.
    pub closed spec fn index(&self) -> Map<Point, usize> {
        entries_map(self.nodes@)
    }

    pub closed spec fn keys_distinct(&self) -> bool {
        forall|a: int, b: int| 0 <= a < b < self.nodes@.len() ==> self.nodes@[a].0 != self.nodes@[b].0
    }

    /// Every registered point refers to an existing net.
    pub open spec fn wf(&self) -> bool {
        &&& self.keys_distinct()
        &&& forall|p: Point| #[trigger] self.index().contains_key(p) ==> self.index()[p] < self.nets().len()
    }

    proof fn lemma_entries(s: Seq<(Point, usize)>)
        requires
            forall|a: int, b: int| 0 <= a < b < s.len() ==> s[a].0 != s[b].0,
        ensures
            forall|p: Point| #[trigger] entries_map(s).contains_key(p) <==> exists|k: int| 0 <= k < s.len() && s[k].0 == p,
            forall|k: int| 0 <= k < s.len() ==> #[trigger] entries_map(s)[s[k].0] == s[k].1,
        decreases s.len(),
    {
        if s.len() > 0 {
            let t = s.drop_last();
            Self::lemma_entries(t);
            assert forall|p: Point| #[trigger] entries_map(s).contains_key(p) implies exists|k: int| 0 <= k < s.len() && s[k].0 == p by {
                if p != s.last().0 {
                    assert(entries_map(t).contains_key(p));
                    let k = choose|k: int| 0 <= k < t.len() && t[k].0 == p;
                    assert(s[k].0 == p);
                } else {
                    assert(s[s.len() - 1].0 == p);
                }
            }
            assert forall|p: Point| (exists|k: int| 0 <= k < s.len() && s[k].0 == p) implies #[trigger] entries_map(s).contains_key(p) by {
                let k = choose|k: int| 0 <= k < s.len() && s[k].0 == p;
                if k < s.len() - 1 {
                    assert(t[k].0 == p);
                    assert(entries_map(t).contains_key(p));
                }
            }
            assert forall|k: int| 0 <= k < s.len() implies #[trigger] entries_map(s)[s[k].0] == s[k].1 by {
                if k < s.len() - 1 {
                    assert(t[k] == s[k]);
                    assert(s[k].0 != s.last().0);
                    assert(entries_map(t)[t[k].0] == t[k].1);
                }
            }
        }
    }

    /// An empty registry.
    pub fn new() -> (r: NetRegistry)
        ensures
            r.wf(),
            r.nets() == Seq::<Net>::empty(),
            r.index() == Map::<Point, usize>::empty(),
    {
        NetRegistry { nets: Vec::new(), nodes: Vec::new() }
    }

    /// The number of nets.
    pub fn len(&self) -> (r: usize)
        ensures
            r == self.nets().len(),
    {
        self.nets.len()
    }

    /// The net at position `i`.
    pub fn net(&self, i: usize) -> (r: &Net)
        requires
            i < self.nets().len(),
        ensures
            *r == self.nets()[i as int],
    {
        &self.nets[i]
    }

    /// The net a point belongs to, if it is registered.
    pub fn lookup(&self, p: &Point) -> (r: Option<usize>)
        requires
            self.wf(),
        ensures
            r == (if self.index().contains_key(*p) { Some(self.index()[*p]) } else { None::<usize> }),
    {
        let mut i: usize = 0;
        while i < self.nodes.len()
            invariant
                self.wf(),
                i <= self.nodes@.len(),
                forall|k: int| 0 <= k < i ==> self.nodes@[k].0 != *p,
            decreases self.nodes@.len() - i,
        {
            if self.nodes[i].0 == *p {
                proof {
                    Self::lemma_entries(self.nodes@);
                }
                return Some(self.nodes[i].1);
            }
            i = i + 1;
        }
        proof {
            Self::lemma_entries(self.nodes@);
        }
        None
    }

    /// Adds a new net at an unregistered point and registers the point to it.
    pub fn create(&mut self, p: Point, identifier: Option<String>, kind: String) -> (r: usize)
        requires
            old(self).wf(),
            !old(self).index().contains_key(p),
        ensures
            final(self).wf(),
            r == old(self).nets().len(),
            final(self).nets() == old(self).nets().push(Net { identifier, kind, coords: p }),
            final(self).index() == old(self).index().insert(p, r),
    {
        proof {
            Self::lemma_entries(self.nodes@);
        }
        let r = self.nets.len();
        self.nets.push(Net { identifier, kind, coords: p });
        self.nodes.push((p, r));
        proof {
            assert(self.nodes@.drop_last() =~= old(self).nodes@);
            assert forall|a: int, b: int| 0 <= a < b < self.nodes@.len() implies self.nodes@[a].0 != self.nodes@[b].0 by {
                if b == self.nodes@.len() - 1 {
                    assert(old(self).nodes@[a].0 == self.nodes@[a].0);
                }
            }
        }
        r
    }

    /// The net at a point, creating an empty one if the point is unregistered.
    pub fn touch(&mut self, p: Point) -> (r: usize)
        requires
            old(self).wf(),
        ensures
            final(self).wf(),
            r < final(self).nets().len(),
            final(self).index().contains_key(p),
            final(self).index()[p] == r,
            old(self).index().contains_key(p) ==> {
                &&& r == old(self).index()[p]
                &&& final(self).nets() == old(self).nets()
                &&& final(self).index() == old(self).index()
            },
            !old(self).index().contains_key(p) ==> {
                &&& r == old(self).nets().len()
                &&& appended(old(self).nets(), final(self).nets(), None, Seq::empty(), p)
                &&& final(self).index() == old(self).index().insert(p, r)
            },
    {
        match self.lookup(&p) {
            Some(i) => i,
            None => {
                let r = self.create(p, None, String::new());
                assert(self.nets().drop_last() =~= old(self).nets());
                r
            },
        }
    }

    /// Registers `new` to the net of the registered point `existing`.
    pub fn alias(&mut self, existing: &Point, new: Point)
        requires
            old(self).wf(),
            old(self).index().contains_key(*existing),
            !old(self).index().contains_key(new),
        ensures
            final(self).wf(),
            final(self).nets() == old(self).nets(),
            final(self).index() == old(self).index().insert(new, old(self).index()[*existing]),
    {
        proof {
            Self::lemma_entries(self.nodes@);
        }
        let n = match self.lookup(existing) {
            Some(n) => n,
            None => 0,
        };
        self.nodes.push((new, n));
        proof {
            assert(self.nodes@.drop_last() =~= old(self).nodes@);
            assert forall|a: int, b: int| 0 <= a < b < self.nodes@.len() implies self.nodes@[a].0 != self.nodes@[b].0 by {
                if b == self.nodes@.len() - 1 {
                    assert(old(self).nodes@[a].0 == self.nodes@[a].0);
                }
            }
        }
    }

    /// Replaces the identifier of net `i`.
    pub fn set_identifier(&mut self, i: usize, identifier: Option<String>)
        requires
            old(self).wf(),
            i < old(self).nets().len(),
        ensures
            final(self).wf(),
            final(self).index() == old(self).index(),
            final(self).nets() == old(self).nets().update(
                i as int,
                Net { identifier, kind: old(self).nets()[i as int].kind, coords: old(self).nets()[i as int].coords },
            ),
    {
        let kind = self.nets[i].kind.clone();
        let coords = self.nets[i].coords;
        self.nets.set(i, Net { identifier, kind, coords });
        assert(self.nodes@ == old(self).nodes@);
        assert(self.nets@.len() == old(self).nets@.len());
        assert(self.keys_distinct());
        assert forall|p: Point| #[trigger] self.index().contains_key(p) implies self.index()[p] < self.nets().len() by {
            assert(old(self).index().contains_key(p));
        }
    }

    /// Replaces the kind of net `i`.
    pub fn set_kind(&mut self, i: usize, kind: String)
        requires
            old(self).wf(),
            i < old(self).nets().len(),
        ensures
            final(self).wf(),
            final(self).index() == old(self).index(),
            final(self).nets() == old(self).nets().update(
                i as int,
                Net { identifier: old(self).nets()[i as int].identifier, kind, coords: old(self).nets()[i as int].coords },
            ),
    {
        let identifier = self.nets[i].identifier.clone();
        let coords = self.nets[i].coords;
        self.nets.set(i, Net { identifier, kind, coords });
        assert(self.nodes@ == old(self).nodes@);
        assert(self.nets@.len() == old(self).nets@.len());
        assert(self.keys_distinct());
        assert forall|p: Point| #[trigger] self.index().contains_key(p) implies self.index()[p] < self.nets().len() by {
            assert(old(self).index().contains_key(p));
        }
    }

    /// Gives every net without an identifier the next number, counting from
    /// 1 in creation order; other nets keep theirs.
    pub fn finalize(&mut self)
        requires
            old(self).wf(),
        ensures
            final(self).wf(),
            final(self).index() == old(self).index(),
            final(self).nets().len() == old(self).nets().len(),
            forall|i: int| 0 <= i < old(self).nets().len() ==> {
                &&& #[trigger] final(self).nets()[i].identifier is Some
                &&& id_view(final(self).nets()[i].identifier) == Some(final_identifier(old(self).nets(), i))
                &&& final(self).nets()[i].kind == old(self).nets()[i].kind
                &&& final(self).nets()[i].coords == old(self).nets()[i].coords
            },
    {
        let ghost before = self.nets@;
        let mut named: usize = 0;
        let mut i: usize = 0;
        while i < self.nets.len()
            invariant
                self.wf(),
                self.index() == old(self).index(),
                before == old(self).nets(),
                self.nets@.len() == before.len(),
                i <= before.len(),
                named == unnamed_before(before, i as int),
                named <= i,
                forall|j: int| i <= j < before.len() ==> #[trigger] self.nets@[j] == before[j],
                forall|j: int| 0 <= j < i ==> {
                    &&& #[trigger] self.nets@[j].identifier is Some
                    &&& id_view(self.nets@[j].identifier) == Some(final_identifier(before, j))
                    &&& self.nets@[j].kind == before[j].kind
                    &&& self.nets@[j].coords == before[j].coords
                },
            decreases before.len() - i,
        {
            if self.nets[i].identifier.is_none() {
                let id = decimal_string(named + 1);
                let kind = self.nets[i].kind.clone();
                let coords = self.nets[i].coords;
                self.nets.set(i, Net { identifier: Some(id), kind, coords });
                named = named + 1;
            }
            i = i + 1;
        }
    }
}

} // verus!
