//! Shape classification of Typst curves for the renderer.
use vstd::prelude::*;
use typst::visualize::{Curve, CurveItem};

verus! {

#[verifier::external_type_specification]
#[verifier::external_body]
pub struct ExCurve(Curve);

/// The kind of one segment of a curve (its points do not matter here).
#[derive(Debug, Clone, Copy, PartialEq, Eq, Structural)]
pub enum CurveSegment {
    Move,
    Line,
    Cubic,
    Close,
}

/// A curve, as the sequence of its segment kinds.
pub struct CurveShape {
    pub items: Vec<CurveSegment>,
}

/// Queries the renderer makes of a curve.
pub trait TypstCurveExt {
    /// Whether the curve is closed.
    fn is_closed(&self) -> bool;

    /// Whether the curve looks like a circle or ellipse.
    fn is_ellipse(&self) -> bool;
}

/// The number of cubic segments.
pub open spec fn cubic_count(s: Seq<CurveSegment>) -> nat
    decreases s.len(),
{
    if s.len() == 0 {
        0
    } else {
        cubic_count(s.drop_last()) + if s.last() == CurveSegment::Cubic {
            1nat
        } else {
            0nat
        }
    }
}

/// Whether some segment has kind `k`.
pub open spec fn has_segment(s: Seq<CurveSegment>, k: CurveSegment) -> bool {
    exists|i: int| 0 <= i < s.len() && s[i] == k
}

impl TypstCurveExt for CurveShape {
    /// A curve is closed when one of its segments closes it.
    fn is_closed(&self) -> (r: bool)
        ensures
            r == has_segment(self.items@, CurveSegment::Close),
    {
        let mut i: usize = 0;
        while i < self.items.len()
            invariant
                0 <= i <= self.items.len(),
                forall|j: int| 0 <= j < i ==> self.items@[j] != CurveSegment::Close,
            decreases self.items.len() - i,
        {
            if self.items[i] == CurveSegment::Close {
                return true;
            }
            i = i + 1;
        }
        false
    }

    /// Typst draws circles and ellipses as exactly four cubic segments and no
    /// lines; a curve with lines is a polygon or another shape.
    fn is_ellipse(&self) -> (r: bool)
        ensures
            r == (cubic_count(self.items@) == 4 && !has_segment(self.items@, CurveSegment::Line)),
    {
        let mut cubics: usize = 0;
        let mut has_lines = false;
        let mut i: usize = 0;
        while i < self.items.len()
            invariant
                0 <= i <= self.items.len(),
                cubics == cubic_count(self.items@.take(i as int)),
                cubics <= i,
                has_lines == (exists|j: int| 0 <= j < i && self.items@[j] == CurveSegment::Line),
            decreases self.items.len() - i,
        {
            assert(self.items@.take(i + 1).drop_last() =~= self.items@.take(i as int));
            match self.items[i] {
                CurveSegment::Cubic => cubics = cubics + 1,
                CurveSegment::Line => has_lines = true,
                _ => {},
            }
            i = i + 1;
        }
        assert(self.items@.take(self.items.len() as int) =~= self.items@);
        cubics == 4 && !has_lines
    }
}

/// The kinds of the segments of a `typst::visualize::Curve`, in order.
pub uninterp spec fn curve_segments(curve: Curve) -> Seq<CurveSegment>;

/// Reads the items of a `typst::visualize::Curve` (its public vector of
/// `CurveItem`s), keeping each item's kind. Claimed: the kinds are the
/// curve's items, in order.
#[verifier::external_body]
fn segments_of(curve: &Curve) -> (r: Vec<CurveSegment>)
    ensures
        r@ == curve_segments(*curve),
{
    curve.0.iter().map(|item| match item {
        CurveItem::Move(_) => CurveSegment::Move,
        CurveItem::Line(_) => CurveSegment::Line,
        CurveItem::Cubic(..) => CurveSegment::Cubic,
        CurveItem::Close => CurveSegment::Close,
    }).collect()
}

impl TypstCurveExt for Curve {
    /// A curve is closed when one of its segments closes it.
    fn is_closed(&self) -> (r: bool)
        ensures
            r == has_segment(curve_segments(*self), CurveSegment::Close),
    {
        let shape = CurveShape { items: segments_of(self) };
        shape.is_closed()
    }

    /// Four cubic segments and no lines.
    fn is_ellipse(&self) -> (r: bool)
        ensures
            r == (cubic_count(curve_segments(*self)) == 4 && !has_segment(
                curve_segments(*self),
                CurveSegment::Line,
            )),
    {
        let shape = CurveShape { items: segments_of(self) };
        shape.is_ellipse()
    }
}

} // verus!
