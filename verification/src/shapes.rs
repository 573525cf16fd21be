//! The shape registry as this core sees it: a read-mostly table of
//! axis-aligned bounding boxes keyed by a stable shape identifier. The
//! surrounding editor owns shape lifecycle; connectors only look positions
//! up here and react when a shape disappears.

use vstd::prelude::*;

use crate::coord_ok;

verus! {

/// The current bounding box of one shape: `(x, y)` is the corner with the
/// smallest coordinates, `w` and `h` the extent.
#[derive(Clone, Copy, PartialEq, Eq, Structural, Debug)]
pub struct ShapeBox {
    pub id: u128,
    pub x: i64,
    pub y: i64,
    pub w: u32,
    pub h: u32,
}

impl ShapeBox {
    /// Corner within the coordinate range, extent bounded by it too.
    pub open spec fn wf(self) -> bool {
        coord_ok(self.x as int) && coord_ok(self.y as int) && self.w <= crate::COORD_LIMIT
            && self.h <= crate::COORD_LIMIT
    }
}

/// The first box carrying `id`, scanning front to back.
pub open spec fn spec_find_shape(s: Seq<ShapeBox>, id: u128) -> Option<ShapeBox>
    decreases s.len(),
{
    if s.len() == 0 {
        None
    } else if s[0].id == id {
        Some(s[0])
    } else {
        spec_find_shape(s.skip(1), id)
    }
}

/// Keeps every box but those carrying `id`.
pub open spec fn keeps_shape(id: u128) -> spec_fn(ShapeBox) -> bool {
    |b: ShapeBox| b.id != id
}

/// Scanning may start past any prefix free of `id`.
pub proof fn lemma_find_shape_skip(s: Seq<ShapeBox>, id: u128, i: int)
    requires
        0 <= i <= s.len(),
        forall|j: int| 0 <= j < i ==> s[j].id != id,
    ensures
        spec_find_shape(s, id) == spec_find_shape(s.skip(i), id),
    decreases i,
{
    if i > 0 {
        lemma_find_shape_skip(s, id, i - 1);
        assert(s.skip(i - 1).skip(1) =~= s.skip(i));
        assert(s.skip(i - 1)[0] == s[i - 1]);
    } else {
        assert(s.skip(0) =~= s);
    }
}

/// A found box carries the identifier it was found under.
pub proof fn lemma_find_shape_id(s: Seq<ShapeBox>, id: u128)
    requires
        spec_find_shape(s, id) is Some,
    ensures
        spec_find_shape(s, id)->0.id == id,
    decreases s.len(),
{
    if s.len() > 0 && s[0].id != id {
        lemma_find_shape_id(s.skip(1), id);
    }
}

/// Appending a box is seen only where the scan found nothing before it.
pub proof fn lemma_find_shape_push(s: Seq<ShapeBox>, x: ShapeBox, id: u128)
    ensures
        spec_find_shape(s.push(x), id) == (if spec_find_shape(s, id) is Some {
            spec_find_shape(s, id)
        } else if x.id == id {
            Some(x)
        } else {
            None
        }),
    decreases s.len(),
{
    if s.len() == 0 {
        assert(s.push(x)[0] == x);
        assert(s.push(x).skip(1) =~= s);
    } else {
        assert(s.push(x)[0] == s[0]);
        assert(s.push(x).skip(1) =~= s.skip(1).push(x));
        lemma_find_shape_push(s.skip(1), x, id);
    }
}

/// Dropping the boxes of one shape leaves every other lookup unchanged.
pub proof fn lemma_find_shape_filter_other(s: Seq<ShapeBox>, drop_id: u128, id: u128)
    requires
        id != drop_id,
    ensures
        spec_find_shape(s.filter(keeps_shape(drop_id)), id) == spec_find_shape(s, id),
    decreases s.len(),
{
    reveal(Seq::filter);
    if s.len() > 0 {
        let rest = s.drop_last();
        let last = s.last();
        lemma_find_shape_filter_other(rest, drop_id, id);
        assert(s =~= rest.push(last));
        lemma_find_shape_push(rest, last, id);
        if keeps_shape(drop_id)(last) {
            lemma_find_shape_push(rest.filter(keeps_shape(drop_id)), last, id);
        }
    }
}

/// The live shapes, as the editor last committed them.
#[derive(Clone, Debug)]
pub struct ShapeRegistry {
    pub shapes: Vec<ShapeBox>,
}

impl View for ShapeRegistry {
    type V = Seq<ShapeBox>;

    open spec fn view(&self) -> Seq<ShapeBox> {
        self.shapes@
    }
}

impl ShapeRegistry {
    /// Every box in range.
    pub open spec fn wf(self) -> bool {
        forall|i: int| 0 <= i < self@.len() ==> #[trigger] self@[i].wf()
    }

    /// An empty registry.
    pub fn new() -> (r: ShapeRegistry)
        ensures
            r@ == Seq::<ShapeBox>::empty(),
            r.wf(),
    {
        let r = ShapeRegistry { shapes: Vec::new() };
        proof {
            assert(r@ =~= Seq::<ShapeBox>::empty());
        }
        r
    }

    /// The current box of the shape carrying `id`, if it is live.
    pub fn get_shape(&self, id: u128) -> (r: Option<&ShapeBox>)
        ensures
            match r {
                Some(b) => spec_find_shape(self@, id) == Some(*b),
                None => spec_find_shape(self@, id) is None,
            },
    {
        let n = self.shapes.len();
        let mut i: usize = 0;
        while i < n
            invariant
                i <= n,
                n == self.shapes.len(),
                forall|j: int| 0 <= j < i ==> self.shapes@[j].id != id,
            decreases n - i,
        {
            if self.shapes[i].id == id {
                proof {
                    lemma_find_shape_skip(self@, id, i as int);
                    assert(self@.skip(i as int)[0] == self@[i as int]);
                }
                return Some(&self.shapes[i]);
            }
            i += 1;
        }
        proof {
            lemma_find_shape_skip(self@, id, n as int);
        }
        None
    }

    /// Drop every box carrying `id` (the shape was deleted).
    pub fn remove_shape(&mut self, id: u128)
        requires
            old(self).wf(),
        ensures
            final(self).wf(),
            final(self)@ == old(self)@.filter(keeps_shape(id)),
    {
        let n = self.shapes.len();
        let mut out: Vec<ShapeBox> = Vec::new();
        proof {
            reveal(Seq::filter);
            assert(old(self)@.take(0).filter(keeps_shape(id)) =~= out@);
        }
        let mut i: usize = 0;
        while i < n
            invariant
                i <= n,
                *self == *old(self),
                n == self.shapes.len(),
                old(self).wf(),
                out@ == old(self)@.take(i as int).filter(keeps_shape(id)),
            decreases n - i,
        {
            let b = self.shapes[i];
            proof {
                reveal(Seq::filter);
                assert(old(self)@.take(i + 1).drop_last() =~= old(self)@.take(i as int));
                assert(old(self)@.take(i + 1).last() == b);
            }
            if b.id != id {
                out.push(b);
            }
            i += 1;
        }
        proof {
            assert(old(self)@.take(n as int) =~= old(self)@);
        }
        self.shapes = out;
        proof {
            broadcast use vstd::seq_lib::group_seq_properties;

            assert forall|k: int| 0 <= k < self@.len() implies #[trigger] self@[k].wf() by {
                reveal(Seq::filter);
                assert(self@.contains(self@[k]));
                old(self)@.lemma_filter_contains_rev(keeps_shape(id), self@[k]);
                let m = choose|m: int| 0 <= m < old(self)@.len() && old(self)@[m] == self@[k];
                assert(old(self)@[m].wf());
            }
        }
    }

    /// Commit the current box of a shape: replace the one carrying its id,
    /// or admit a new shape.
    pub fn set_shape(&mut self, b: ShapeBox)
        requires
            old(self).wf(),
            b.wf(),
        ensures
            final(self).wf(),
            final(self)@ == old(self)@.filter(keeps_shape(b.id)).push(b),
    {
        self.remove_shape(b.id);
        self.shapes.push(b);
    }
}

} // verus!
