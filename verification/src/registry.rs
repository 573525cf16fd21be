//! Connector registry: the single source of truth for which connectors
//! exist. Each entry owns its two anchor specifications, the coordinates
//! they resolved to when last drawn, and the rendered path — so removing
//! an entry removes its rendered path in the same step, and no frame can
//! see one without the other.

use vstd::prelude::*;

use crate::anchor::AnchorSpec;
use crate::geometry::ConnectorMode;
use crate::geometry::Point;
use crate::geometry::RenderedPath;
use crate::geometry::build;
use crate::geometry::point_ok;
use crate::geometry::spec_build;

verus! {

/// One live connector, owned exclusively by the registry.
#[derive(Clone, Copy, PartialEq, Eq, Debug)]
pub struct Connector {
    pub id: u64,
    pub start: AnchorSpec,
    pub end: AnchorSpec,
    pub mode: ConnectorMode,
    pub last_start: Point,
    pub last_end: Point,
    pub path: RenderedPath,
}

impl Connector {
    /// Anchors in range, and the rendered path exactly the build of the
    /// coordinates it was last drawn from.
    pub open spec fn wf(self) -> bool {
        self.start.wf() && self.end.wf() && point_ok(self.last_start) && point_ok(self.last_end)
            && self.path == spec_build(self.last_start, self.last_end, self.mode)
    }
}

/// `c` references the shape carrying `sid` at either endpoint.
pub open spec fn spec_references(c: Connector, sid: u128) -> bool {
    crate::anchor::spec_attached_to(c.start, sid) || crate::anchor::spec_attached_to(c.end, sid)
}

/// Keeps every connector not referencing the shape `sid`.
pub open spec fn keeps_unattached(sid: u128) -> spec_fn(Connector) -> bool {
    |c: Connector| !spec_references(c, sid)
}

/// Keeps every connector but the one carrying `id`.
pub open spec fn keeps_id(id: u64) -> spec_fn(Connector) -> bool {
    |c: Connector| c.id != id
}

/// The first connector carrying `id`, scanning front to back.
pub open spec fn spec_find_connector(s: Seq<Connector>, id: u64) -> Option<Connector>
    decreases s.len(),
{
    if s.len() == 0 {
        None
    } else if s[0].id == id {
        Some(s[0])
    } else {
        spec_find_connector(s.skip(1), id)
    }
}

/// Scanning may start past any prefix free of `id`.
pub proof fn lemma_find_connector_skip(s: Seq<Connector>, id: u64, i: int)
    requires
        0 <= i <= s.len(),
        forall|j: int| 0 <= j < i ==> s[j].id != id,
    ensures
        spec_find_connector(s, id) == spec_find_connector(s.skip(i), id),
    decreases i,
{
    if i > 0 {
        lemma_find_connector_skip(s, id, i - 1);
        assert(s.skip(i - 1).skip(1) =~= s.skip(i));
        assert(s.skip(i - 1)[0] == s[i - 1]);
    } else {
        assert(s.skip(0) =~= s);
    }
}

/// The set of live connectors, and the counter their identifiers come
/// from.
#[derive(Clone, Debug)]
pub struct ConnectorRegistry {
    pub connectors: Vec<Connector>,
    pub next_id: u64,
}

impl View for ConnectorRegistry {
    type V = Seq<Connector>;

    open spec fn view(&self) -> Seq<Connector> {
        self.connectors@
    }
}

/// The registry's invariant over a bare sequence and counter: entries
/// well-formed, identifiers strictly increasing (hence unique) and all
/// below the counter.
pub open spec fn registry_inv(s: Seq<Connector>, next_id: u64) -> bool {
    (forall|i: int, j: int| 0 <= i < j < s.len() ==> s[i].id < s[j].id) && (forall|i: int|
        0 <= i < s.len() ==> #[trigger] s[i].id < next_id) && (forall|i: int|
        0 <= i < s.len() ==> (#[trigger] s[i]).wf())
}

/// Dropping entries keeps the invariant: a filtered sequence is a
/// subsequence, so order, bounds and well-formedness survive.
pub proof fn lemma_filter_keeps_inv(s: Seq<Connector>, pred: spec_fn(Connector) -> bool, next_id: u64)
    requires
        registry_inv(s, next_id),
    ensures
        registry_inv(s.filter(pred), next_id),
    decreases s.len(),
{
    reveal(Seq::filter);
    broadcast use vstd::seq_lib::group_seq_properties;

    if s.len() > 0 {
        let rest = s.drop_last();
        assert(registry_inv(rest, next_id)) by {
            assert(forall|i: int| 0 <= i < rest.len() ==> rest[i] == s[i]);
        }
        lemma_filter_keeps_inv(rest, pred, next_id);
        if pred(s.last()) {
            let f = rest.filter(pred);
            assert forall|k: int| 0 <= k < f.len() implies f[k].id < s.last().id by {
                rest.lemma_filter_contains_rev(pred, f[k]);
                let m = choose|m: int| 0 <= m < rest.len() && rest[m] == f[k];
                assert(s[m].id < s.last().id);
            }
        }
    }
}

impl ConnectorRegistry {
    /// The registry's invariant.
    pub open spec fn wf(self) -> bool {
        registry_inv(self@, self.next_id)
    }

    /// An empty registry.
    pub fn new() -> (r: ConnectorRegistry)
        ensures
            r@ == Seq::<Connector>::empty(),
            r.next_id == 0,
            r.wf(),
    {
        let r = ConnectorRegistry { connectors: Vec::new(), next_id: 0 };
        proof {
            assert(r@ =~= Seq::<Connector>::empty());
        }
        r
    }

    /// The entry a finalized gesture appends: geometry freshly built from
    /// the resolved coordinates.
    pub open spec fn spec_new_entry(
        id: u64,
        start: AnchorSpec,
        end: AnchorSpec,
        mode: ConnectorMode,
        rs: Point,
        re: Point,
    ) -> Connector {
        Connector { id, start, end, mode, last_start: rs, last_end: re, path: spec_build(rs, re, mode) }
    }

    /// Admit a finalized connector: build its path from the resolved
    /// coordinates and append it under a fresh identifier.
    pub fn insert(
        &mut self,
        start: AnchorSpec,
        end: AnchorSpec,
        mode: ConnectorMode,
        rs: Point,
        re: Point,
    ) -> (id: u64)
        requires
            old(self).wf(),
            start.wf(),
            end.wf(),
            point_ok(rs),
            point_ok(re),
            old(self).next_id < u64::MAX,
        ensures
            final(self).wf(),
            id == old(self).next_id,
            final(self).next_id == old(self).next_id + 1,
            final(self)@ == old(self)@.push(
                ConnectorRegistry::spec_new_entry(id, start, end, mode, rs, re),
            ),
    {
        let id = self.next_id;
        let path = build(rs, re, mode);
        let entry = Connector { id, start, end, mode, last_start: rs, last_end: re, path };
        self.connectors.push(entry);
        self.next_id = id + 1;
        proof {
            let s = self@;
            assert forall|i: int, j: int| 0 <= i < j < s.len() implies s[i].id < s[j].id by {
                if j < s.len() - 1 {
                    assert(old(self)@[i].id < old(self)@[j].id);
                } else {
                    assert(old(self)@[i].id < old(self).next_id);
                }
            }
        }
        id
    }

    /// The live connector carrying `id`, if any.
    pub fn get(&self, id: u64) -> (r: Option<&Connector>)
        ensures
            match r {
                Some(c) => spec_find_connector(self@, id) == Some(*c),
                None => spec_find_connector(self@, id) is None,
            },
    {
        let n = self.connectors.len();
        let mut i: usize = 0;
        while i < n
            invariant
                i <= n,
                n == self.connectors.len(),
                forall|j: int| 0 <= j < i ==> self.connectors@[j].id != id,
            decreases n - i,
        {
            if self.connectors[i].id == id {
                proof {
                    lemma_find_connector_skip(self@, id, i as int);
                    assert(self@.skip(i as int)[0] == self@[i as int]);
                }
                return Some(&self.connectors[i]);
            }
            i += 1;
        }
        proof {
            lemma_find_connector_skip(self@, id, n as int);
        }
        None
    }

    /// How many connectors are live.
    pub fn len(&self) -> (n: usize)
        ensures
            n == self@.len(),
    {
        self.connectors.len()
    }

    /// The live connector at position `i`, for iteration.
    pub fn at(&self, i: usize) -> (c: &Connector)
        requires
            i < self@.len(),
        ensures
            *c == self@[i as int],
    {
        &self.connectors[i]
    }

    /// Explicit deletion of one connector, rendered path included.
    pub fn remove(&mut self, id: u64)
        requires
            old(self).wf(),
        ensures
            final(self).wf(),
            final(self).next_id == old(self).next_id,
            final(self)@ == old(self)@.filter(keeps_id(id)),
    {
        let ghost pred = keeps_id(id);
        let n = self.connectors.len();
        let mut out: Vec<Connector> = Vec::new();
        proof {
            reveal(Seq::filter);
            assert(old(self)@.take(0).filter(pred) =~= out@);
        }
        let mut i: usize = 0;
        while i < n
            invariant
                i <= n,
                *self == *old(self),
                n == self.connectors.len(),
                pred == keeps_id(id),
                out@ == old(self)@.take(i as int).filter(pred),
            decreases n - i,
        {
            let c = self.connectors[i];
            proof {
                reveal(Seq::filter);
                assert(old(self)@.take(i + 1).drop_last() =~= old(self)@.take(i as int));
                assert(old(self)@.take(i + 1).last() == c);
            }
            if c.id != id {
                out.push(c);
            }
            i += 1;
        }
        proof {
            assert(old(self)@.take(n as int) =~= old(self)@);
            lemma_filter_keeps_inv(old(self)@, pred, old(self).next_id);
        }
        self.connectors = out;
    }

    /// Cascading deletion: drop every connector referencing the deleted
    /// shape `sid`, at its start, its end, or both, each together with its
    /// rendered path. Unrelated connectors stay, in order.
    pub fn remove_where_attached_to(&mut self, sid: u128)
        requires
            old(self).wf(),
        ensures
            final(self).wf(),
            final(self).next_id == old(self).next_id,
            final(self)@ == old(self)@.filter(keeps_unattached(sid)),
    {
        let ghost pred = keeps_unattached(sid);
        let n = self.connectors.len();
        let mut out: Vec<Connector> = Vec::new();
        proof {
            reveal(Seq::filter);
            assert(old(self)@.take(0).filter(pred) =~= out@);
        }
        let mut i: usize = 0;
        while i < n
            invariant
                i <= n,
                *self == *old(self),
                n == self.connectors.len(),
                pred == keeps_unattached(sid),
                out@ == old(self)@.take(i as int).filter(pred),
            decreases n - i,
        {
            let c = self.connectors[i];
            proof {
                reveal(Seq::filter);
                assert(old(self)@.take(i + 1).drop_last() =~= old(self)@.take(i as int));
                assert(old(self)@.take(i + 1).last() == c);
            }
            let start_hit = match c.start {
                AnchorSpec::Attached { shape, .. } => shape == sid,
                AnchorSpec::Free(_) => false,
            };
            let end_hit = match c.end {
                AnchorSpec::Attached { shape, .. } => shape == sid,
                AnchorSpec::Free(_) => false,
            };
            if !(start_hit || end_hit) {
                out.push(c);
            }
            i += 1;
        }
        proof {
            assert(old(self)@.take(n as int) =~= old(self)@);
            lemma_filter_keeps_inv(old(self)@, pred, old(self).next_id);
        }
        self.connectors = out;
    }
}

/// Law: cascading deletion is exact. After deleting shape `sid`, a
/// connector survives if and only if it was live before and references
/// the shape at neither endpoint — exactly the referencing connectors go,
/// every unrelated one stays.
pub proof fn lemma_cascade_exact(s: Seq<Connector>, sid: u128, c: Connector)
    ensures
        s.filter(keeps_unattached(sid)).contains(c) <==> s.contains(c) && !spec_references(c, sid),
{
    broadcast use vstd::seq_lib::group_seq_properties;

    let pred = keeps_unattached(sid);
    let f = s.filter(pred);
    if f.contains(c) {
        let k = choose|k: int| 0 <= k < f.len() && f[k] == c;
        s.lemma_filter_pred(pred, k);
        s.lemma_filter_contains_rev(pred, c);
    }
    if s.contains(c) && !spec_references(c, sid) {
        let m = choose|m: int| 0 <= m < s.len() && s[m] == c;
        s.lemma_filter_contains(pred, m);
    }
}

} // verus!
