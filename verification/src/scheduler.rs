//! Redraw scheduler: the once-per-frame pass that runs after the editor
//! committed all shape positions. A connector whose shape disappeared is
//! deleted; one whose resolved anchors moved is rebuilt; one whose anchors
//! are unchanged is skipped — the skip is required, so a quiet frame does
//! no rebuild work at all.

use vstd::prelude::*;

use crate::anchor::lemma_resolve_point_ok;
use crate::anchor::resolve;
use crate::anchor::spec_resolve;
use crate::geometry::build;
use crate::geometry::spec_build;
use crate::registry::Connector;
use crate::registry::ConnectorRegistry;
use crate::registry::registry_inv;
use crate::shapes::ShapeBox;
use crate::shapes::ShapeRegistry;

verus! {

/// Both anchors of `c` resolve against `shapes`.
pub open spec fn spec_resolvable(c: Connector, shapes: Seq<ShapeBox>) -> bool {
    spec_resolve(c.start, shapes) is Some && spec_resolve(c.end, shapes) is Some
}

/// `c` brought up to date against `shapes`: the last resolved coordinates
/// set to what the anchors resolve to now, and the path rebuilt from them.
pub open spec fn spec_refresh(c: Connector, shapes: Seq<ShapeBox>) -> Connector {
    let rs = spec_resolve(c.start, shapes)->0;
    let re = spec_resolve(c.end, shapes)->0;
    Connector { last_start: rs, last_end: re, path: spec_build(rs, re, c.mode), ..c }
}

/// One scheduler step: an orphaned connector is deleted, any other one is
/// brought up to date.
pub open spec fn redraw_step(shapes: Seq<ShapeBox>) -> spec_fn(Connector) -> Option<Connector> {
    |c: Connector|
        if spec_resolvable(c, shapes) {
            Some(spec_refresh(c, shapes))
        } else {
            None
        }
}

/// Connectors in step with `shapes`: each resolves, to exactly the
/// coordinates it was last drawn from, and its path is the build of those
/// coordinates. The state a redraw pass leaves behind.
pub open spec fn spec_synced(s: Seq<Connector>, shapes: Seq<ShapeBox>) -> bool {
    forall|i: int|
        0 <= i < s.len() ==> spec_resolvable(#[trigger] s[i], shapes) && spec_resolve(
            s[i].start,
            shapes,
        ) == Some(s[i].last_start) && spec_resolve(s[i].end, shapes) == Some(s[i].last_end)
            && s[i].path == spec_build(s[i].last_start, s[i].last_end, s[i].mode)
}

/// The scheduler's step keeps the registry invariant: identifiers are
/// untouched and refreshed entries stay well-formed.
pub proof fn lemma_redraw_keeps_inv(s: Seq<Connector>, shapes: Seq<ShapeBox>, next_id: u64)
    requires
        registry_inv(s, next_id),
        forall|i: int| 0 <= i < shapes.len() ==> (#[trigger] shapes[i]).wf(),
    ensures
        registry_inv(s.filter_map(redraw_step(shapes)), next_id),
    decreases s.len(),
{
    broadcast use vstd::seq_lib::group_seq_properties;

    let step = redraw_step(shapes);
    if s.len() > 0 {
        let rest = s.drop_last();
        let last = s.last();
        assert(registry_inv(rest, next_id)) by {
            assert(forall|i: int| 0 <= i < rest.len() ==> rest[i] == s[i]);
        }
        lemma_redraw_keeps_inv(rest, shapes, next_id);
        if step(last) is Some {
            let r = spec_refresh(last, shapes);
            assert(r.wf()) by {
                assert(last.wf());
                lemma_resolve_point_ok(last.start, shapes);
                lemma_resolve_point_ok(last.end, shapes);
            }
            let f = rest.filter_map(step);
            assert forall|k: int| 0 <= k < f.len() implies f[k].id < r.id by {
                rest.lemma_filter_map_contains(step, f[k]);
                let t = choose|t: Connector| rest.contains(t) && step(t) == Some(f[k]);
                let m = choose|m: int| 0 <= m < rest.len() && rest[m] == t;
                assert(s[m].id < last.id);
            }
            assert(s.filter_map(step) =~= f + seq![r]);
        } else {
            assert(s.filter_map(step) =~= rest.filter_map(step));
        }
    }
}

/// Run the redraw pass: resolve both anchors of every live connector,
/// delete the orphaned ones, rebuild exactly those whose resolved
/// coordinates changed since they were last drawn, and leave the rest
/// untouched. Returns how many connectors were rebuilt.
///
/// Law (idempotence): on a registry already in step with `shapes` — in
/// particular, on any registry this pass itself left behind, with no shape
/// moved in between — the pass changes nothing and rebuilds nothing.
#[verifier::rlimit(80)]
pub fn redraw_pass(reg: &mut ConnectorRegistry, shapes: &ShapeRegistry) -> (rebuilt: usize)
    requires
        old(reg).wf(),
        shapes.wf(),
    ensures
        final(reg).wf(),
        final(reg).next_id == old(reg).next_id,
        final(reg)@ == old(reg)@.filter_map(redraw_step(shapes@)),
        spec_synced(final(reg)@, shapes@),
        spec_synced(old(reg)@, shapes@) ==> final(reg)@ == old(reg)@ && rebuilt == 0,
{
    let ghost step = redraw_step(shapes@);
    let n = reg.connectors.len();
    let mut out: Vec<Connector> = Vec::new();
    let mut rebuilt: usize = 0;
    proof {
        assert(old(reg)@.take(0).filter_map(step) =~= out@);
    }
    let mut i: usize = 0;
    while i < n
        invariant
            i <= n,
            *reg == *old(reg),
            reg.wf(),
            shapes.wf(),
            n == reg.connectors.len(),
            step == redraw_step(shapes@),
            rebuilt <= i,
            out@ == old(reg)@.take(i as int).filter_map(step),
            spec_synced(out@, shapes@),
            spec_synced(old(reg)@, shapes@) ==> out@ == old(reg)@.take(i as int) && rebuilt
                == 0,
        decreases n - i,
    {
        let c = reg.connectors[i];
        proof {
            assert(old(reg)@[i as int].wf());
            old(reg)@.lemma_filter_map_take_succ(step, i as int);
        }
        match (resolve(&c.start, shapes), resolve(&c.end, shapes)) {
            (Ok(rs), Ok(re)) => {
                let changed = rs.x != c.last_start.x || rs.y != c.last_start.y || re.x
                    != c.last_end.x || re.y != c.last_end.y;
                if changed {
                    let path = build(rs, re, c.mode);
                    let updated = Connector { last_start: rs, last_end: re, path, ..c };
                    proof {
                        assert(updated == spec_refresh(c, shapes@));
                    }
                    out.push(updated);
                    rebuilt += 1;
                } else {
                    proof {
                        assert(c == spec_refresh(c, shapes@));
                    }
                    out.push(c);
                }
            },
            _ => {
                proof {
                    assert(!spec_resolvable(c, shapes@));
                }
            },
        }
        proof {
            assert(out@ =~= old(reg)@.take(i + 1).filter_map(step));
            if spec_synced(old(reg)@, shapes@) {
                assert(old(reg)@.take(i + 1) =~= old(reg)@.take(i as int).push(
                    old(reg)@[i as int],
                ));
                assert(out@ =~= old(reg)@.take(i + 1));
            }
        }
        i += 1;
    }
    proof {
        assert(old(reg)@.take(n as int) =~= old(reg)@);
        lemma_redraw_keeps_inv(old(reg)@, shapes@, old(reg).next_id);
    }
    reg.connectors = out;
    rebuilt
}

/// A registry in step with its shapes is a fixed point of the scheduler.
pub proof fn lemma_synced_fixpoint(s: Seq<Connector>, shapes: Seq<ShapeBox>)
    requires
        spec_synced(s, shapes),
    ensures
        s.filter_map(redraw_step(shapes)) == s,
    decreases s.len(),
{
    broadcast use vstd::seq_lib::group_seq_properties;

    let step = redraw_step(shapes);
    if s.len() > 0 {
        let rest = s.drop_last();
        let last = s.last();
        assert(spec_synced(rest, shapes)) by {
            assert(forall|i: int| 0 <= i < rest.len() ==> rest[i] == s[i]);
        }
        lemma_synced_fixpoint(rest, shapes);
        assert(spec_refresh(last, shapes) == last);
        assert(s.filter_map(step) =~= rest + seq![last]);
        assert(rest + seq![last] =~= s);
    }
}

/// Law: the redraw pass is idempotent. One pass leaves the registry in
/// step with the shapes, and a second pass over its own output — with no
/// intervening shape movement — reproduces that output exactly.
pub proof fn lemma_redraw_idempotent(s: Seq<Connector>, shapes: Seq<ShapeBox>)
    ensures
        spec_synced(s.filter_map(redraw_step(shapes)), shapes),
        s.filter_map(redraw_step(shapes)).filter_map(redraw_step(shapes)) == s.filter_map(
            redraw_step(shapes),
        ),
    decreases s.len(),
{
    broadcast use vstd::seq_lib::group_seq_properties;

    let step = redraw_step(shapes);
    if s.len() > 0 {
        let rest = s.drop_last();
        let last = s.last();
        lemma_redraw_idempotent(rest, shapes);
        if step(last) is Some {
            let r = spec_refresh(last, shapes);
            assert(s.filter_map(step) =~= rest.filter_map(step) + seq![r]);
            let f = s.filter_map(step);
            assert forall|i: int|
                0 <= i < f.len() implies spec_resolvable(#[trigger] f[i], shapes) && spec_resolve(
                f[i].start,
                shapes,
            ) == Some(f[i].last_start) && spec_resolve(f[i].end, shapes) == Some(f[i].last_end)
                && f[i].path == spec_build(f[i].last_start, f[i].last_end, f[i].mode) by {
                if i < f.len() - 1 {
                    assert(f[i] == rest.filter_map(step)[i]);
                } else {
                    assert(f[i] == r);
                }
            }
        } else {
            assert(s.filter_map(step) =~= rest.filter_map(step));
        }
        lemma_synced_fixpoint(s.filter_map(step), shapes);
    } else {
        assert(s.filter_map(step) =~= s);
    }
}

} // verus!
