//! The connector subsystem's front door: the two-phase creation protocol
//! and the hooks the surrounding editor drives each frame.
//!
//! The protocol has two states, made explicit in `pending`: idle
//! (`None`), and awaiting the end anchor (`Some`). Out-of-order gesture
//! events are ignored, never a crash or a corrupted registry.

use vstd::prelude::*;

use crate::anchor::AnchorSpec;
use crate::anchor::resolve;
use crate::anchor::spec_attached_to;
use crate::anchor::spec_resolve;
use crate::coord_ok;
use crate::geometry::ConnectorMode;
use crate::geometry::Point;
use crate::geometry::RenderedPath;
use crate::geometry::build;
use crate::geometry::point_ok;
use crate::geometry::spec_build;
use crate::registry::Connector;
use crate::registry::ConnectorRegistry;
use crate::registry::keeps_id;
use crate::registry::keeps_unattached;
use crate::scheduler::redraw_pass;
use crate::scheduler::redraw_step;
use crate::scheduler::spec_synced;
use crate::shapes::ShapeRegistry;

verus! {

/// The in-progress connector held between the two phases of the creation
/// gesture. It lives outside the registry: cancelling leaves no residue.
#[derive(Clone, Copy, PartialEq, Eq, Debug)]
pub struct ProvisionalConnector {
    pub start: AnchorSpec,
    pub start_point: Point,
    pub tracking_end: Point,
    pub mode: ConnectorMode,
    pub preview: RenderedPath,
}

impl ProvisionalConnector {
    /// Start anchor in range, and the preview the build of the confirmed
    /// start point toward the tracked pointer.
    pub open spec fn wf(self) -> bool {
        self.start.wf() && point_ok(self.start_point) && coord_ok(self.tracking_end.x as int)
            && coord_ok(self.tracking_end.y as int) && self.preview == spec_build(
            self.start_point,
            self.tracking_end,
            self.mode,
        )
    }
}

/// The connector subsystem: the live registry and the creation protocol's
/// state. `pending` is `None` while idle, `Some` between the start
/// gesture and the end gesture.
#[derive(Clone, Debug)]
pub struct ArrowPlugin {
    pub registry: ConnectorRegistry,
    pub pending: Option<ProvisionalConnector>,
}

impl ArrowPlugin {
    /// Registry invariant, and a well-formed gesture if one is open.
    pub open spec fn wf(self) -> bool {
        self.registry.wf() && (self.pending matches Some(pc) ==> pc.wf())
    }

    /// A fresh subsystem: no connectors, no open gesture.
    pub fn new() -> (r: ArrowPlugin)
        ensures
            r.wf(),
            r.pending is None,
            r.registry@ == Seq::<Connector>::empty(),
            r.registry.next_id == 0,
    {
        ArrowPlugin { registry: ConnectorRegistry::new(), pending: None }
    }

    /// Phase one of the creation gesture: confirm the start anchor and
    /// open a provisional connector whose end tracks the pointer. The
    /// drawing mode is fixed here, at protocol entry, and never re-read.
    /// A start over a missing shape, or while a gesture is already open,
    /// is ignored.
    pub fn create_arrow_start(
        &mut self,
        target: AnchorSpec,
        pointer: Point,
        mode: ConnectorMode,
        shapes: &ShapeRegistry,
    )
        requires
            old(self).wf(),
            shapes.wf(),
            target.wf(),
            coord_ok(pointer.x as int),
            coord_ok(pointer.y as int),
        ensures
            final(self).wf(),
            final(self).registry == old(self).registry,
            old(self).pending is Some ==> final(self).pending == old(self).pending,
            old(self).pending is None ==> final(self).pending == (match spec_resolve(
                target,
                shapes@,
            ) {
                Some(sp) => Some(
                    ProvisionalConnector {
                        start: target,
                        start_point: sp,
                        tracking_end: pointer,
                        mode,
                        preview: spec_build(sp, pointer, mode),
                    },
                ),
                None => None,
            }),
    {
        if self.pending.is_some() {
            return ;
        }
        match resolve(&target, shapes) {
            Ok(sp) => {
                let preview = build(sp, pointer, mode);
                self.pending = Some(
                    ProvisionalConnector {
                        start: target,
                        start_point: sp,
                        tracking_end: pointer,
                        mode,
                        preview,
                    },
                );
            },
            Err(_) => {},
        }
    }

    /// The pointer moved while awaiting the end anchor: the tracked end
    /// follows it and the live preview is rebuilt. Idle: ignored.
    pub fn move_pointer(&mut self, pointer: Point)
        requires
            old(self).wf(),
            coord_ok(pointer.x as int),
            coord_ok(pointer.y as int),
        ensures
            final(self).wf(),
            final(self).registry == old(self).registry,
            final(self).pending == (match old(self).pending {
                Some(pc) => Some(
                    ProvisionalConnector {
                        tracking_end: pointer,
                        preview: spec_build(pc.start_point, pointer, pc.mode),
                        ..pc
                    },
                ),
                None => None::<ProvisionalConnector>,
            }),
    {
        let pending = self.pending;
        match pending {
            Some(pc) => {
                let preview = build(pc.start_point, pointer, pc.mode);
                self.pending = Some(
                    ProvisionalConnector { tracking_end: pointer, preview, ..pc },
                );
            },
            None => {},
        }
    }

    /// Phase two: confirm the end anchor and finalize. Both anchors are
    /// resolved against the current shapes; an end over a missing shape
    /// leaves the gesture open, a start whose shape vanished mid-gesture
    /// discards it, and otherwise the connector enters the registry under
    /// a fresh identifier, which is returned. An end gesture while idle
    /// is ignored.
    pub fn create_arrow_end(&mut self, target: AnchorSpec, shapes: &ShapeRegistry) -> (created:
        Option<u64>)
        requires
            old(self).wf(),
            shapes.wf(),
            target.wf(),
            old(self).registry.next_id < u64::MAX,
        ensures
            final(self).wf(),
            match old(self).pending {
                None => final(self).pending is None && final(self).registry == old(self).registry
                    && created is None,
                Some(pc) => match spec_resolve(target, shapes@) {
                    None => final(self).pending == old(self).pending && final(self).registry
                        == old(self).registry && created is None,
                    Some(ep) => match spec_resolve(pc.start, shapes@) {
                        None => final(self).pending is None && created is None
                            && final(self).registry == old(self).registry,
                        Some(sp) => final(self).pending is None && created == Some(
                            old(self).registry.next_id,
                        ) && final(self).registry.next_id == old(self).registry.next_id + 1
                            && final(self).registry@ == old(self).registry@.push(
                            ConnectorRegistry::spec_new_entry(
                                old(self).registry.next_id,
                                pc.start,
                                target,
                                pc.mode,
                                sp,
                                ep,
                            ),
                        ),
                    },
                },
            },
    {
        let pending = self.pending;
        match pending {
            None => None,
            Some(pc) => match resolve(&target, shapes) {
                Err(_) => None,
                Ok(ep) => match resolve(&pc.start, shapes) {
                    Err(_) => {
                        self.pending = None;
                        None
                    },
                    Ok(sp) => {
                        let id = self.registry.insert(pc.start, target, pc.mode, sp, ep);
                        self.pending = None;
                        Some(id)
                    },
                },
            },
        }
    }

    /// Cancel the open gesture, if any: the provisional connector is
    /// discarded without residue; the registry is untouched.
    pub fn cancel_gesture(&mut self)
        requires
            old(self).wf(),
        ensures
            final(self).wf(),
            final(self).pending is None,
            final(self).registry == old(self).registry,
    {
        self.pending = None;
    }

    /// Explicit deletion of one connector by identifier, its rendered
    /// path with it.
    pub fn delete_arrow(&mut self, id: u64)
        requires
            old(self).wf(),
        ensures
            final(self).wf(),
            final(self).pending == old(self).pending,
            final(self).registry.next_id == old(self).registry.next_id,
            final(self).registry@ == old(self).registry@.filter(keeps_id(id)),
    {
        self.registry.remove(id);
    }

    /// The editor deleted a shape: cascade. Every connector referencing
    /// it goes, and an open gesture anchored on it is abandoned.
    pub fn shape_deleted(&mut self, sid: u128)
        requires
            old(self).wf(),
        ensures
            final(self).wf(),
            final(self).registry.next_id == old(self).registry.next_id,
            final(self).registry@ == old(self).registry@.filter(keeps_unattached(sid)),
            final(self).pending == (match old(self).pending {
                Some(pc) => if spec_attached_to(pc.start, sid) {
                    None
                } else {
                    old(self).pending
                },
                None => None::<ProvisionalConnector>,
            }),
    {
        self.registry.remove_where_attached_to(sid);
        let cancel = match &self.pending {
            Some(pc) => match pc.start {
                AnchorSpec::Attached { shape, .. } => shape == sid,
                AnchorSpec::Free(_) => false,
            },
            None => false,
        };
        if cancel {
            self.pending = None;
        }
    }

    /// The per-frame redraw pass, run after the editor committed this
    /// frame's shape positions. See `scheduler::redraw_pass`.
    pub fn redraw_arrows(&mut self, shapes: &ShapeRegistry) -> (rebuilt: usize)
        requires
            old(self).wf(),
            shapes.wf(),
        ensures
            final(self).wf(),
            final(self).pending == old(self).pending,
            final(self).registry.next_id == old(self).registry.next_id,
            final(self).registry@ == old(self).registry@.filter_map(redraw_step(shapes@)),
            spec_synced(final(self).registry@, shapes@),
            spec_synced(old(self).registry@, shapes@) ==> rebuilt == 0 && final(self).registry@
                == old(self).registry@,
    {
        redraw_pass(&mut self.registry, shapes)
    }
}

} // verus!
