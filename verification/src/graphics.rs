//! Full-framebuffer mode: a full-screen byte plane, a dirty-region
//! accumulator, rotation-aware drawing, and a flush that streams only the
//! modified region.

use vstd::prelude::*;
use crate::command::DisplayError;
use crate::dirty::DirtyRegion;
use crate::interface::{DisplayInterface, SinkEvent};
use crate::plane::Plane;
use crate::properties::{
    command_events, page_write_events, rotation_events, DisplayProperties,
};
use crate::rect::Rect;
use crate::rotation::DisplayRotation;
use crate::variant::Variant;

verus! {

/// The page writes a flush of pages `base_page..end_page` emits: for each
/// page, the bytes of columns `min_x..=max_x` of that page, in page order.
pub open spec fn flush_page_events(
    v: Variant,
    bytes: Seq<u8>,
    min_x: u8,
    max_x: u8,
    base_page: int,
    end_page: int,
) -> Seq<SinkEvent>
    decreases end_page - base_page,
{
    if end_page <= base_page {
        Seq::empty()
    } else {
        let p = end_page - 1;
        let w = v.width as int;
        flush_page_events(v, bytes, min_x, max_x, base_page, p) + page_write_events(
            v,
            p as u8,
            min_x,
            bytes.subrange(p * w + min_x, p * w + max_x + 1),
        )
    }
}

/// Everything one flush sends: nothing for an empty dirty region, else one
/// page write per dirty page, cropped to the dirty columns.
pub open spec fn spec_flush_events<DI: DisplayInterface>(g: GraphicsMode<DI>) -> Seq<SinkEvent> {
    match g.dirty {
        DirtyRegion::Empty => Seq::empty(),
        DirtyRegion::Span { min_x, min_y, max_x, max_y } => flush_page_events(
            g.properties.variant,
            g.plane.bytes@,
            min_x,
            max_x,
            min_y as int / 8,
            max_y as int / 8 + 1,
        ),
    }
}

/// Whether the logical rectangle `area` covers the pixel whose physical
/// coordinates are `(a, b)` under `g`'s current rotation.
pub open spec fn spec_covers<DI: DisplayInterface>(
    g: GraphicsMode<DI>,
    area: Rect,
    a: int,
    b: int,
) -> bool {
    if g.properties.display_rotation.spec_swaps_axes() {
        area.spec_contains(b, a)
    } else {
        area.spec_contains(a, b)
    }
}

/// The dirty region after a rectangle fill: grown by the clipped rectangle,
/// untouched when the clipped rectangle is empty.
pub open spec fn spec_dirty_after_fill<DI: DisplayInterface>(
    g: GraphicsMode<DI>,
    area: Rect,
) -> DirtyRegion {
    let dims = g.properties.spec_dimensions();
    let c = area.spec_clip(dims.0 as int, dims.1 as int);
    let phys = if g.properties.display_rotation.spec_swaps_axes() {
        (c.1, c.0, c.3, c.2)
    } else {
        c
    };
    if phys.0 < phys.2 && phys.1 < phys.3 {
        g.dirty.spec_include_rect(
            phys.0 as u8,
            phys.1 as u8,
            (phys.2 - 1) as u8,
            (phys.3 - 1) as u8,
        )
    } else {
        g.dirty
    }
}

/// Full-framebuffer mode handler.
pub struct GraphicsMode<DI: DisplayInterface> {
    /// The protocol layer underneath.
    pub properties: DisplayProperties<DI>,
    /// The full-screen byte plane, in physical orientation.
    pub plane: Plane,
    /// Bounding box of everything written since the last flush.
    pub dirty: DirtyRegion,
}

impl<DI: DisplayInterface> GraphicsMode<DI> {
    /// Well-formedness: the plane matches the variant's physical dimensions
    /// and the dirty region lies on the plane.
    pub open spec fn wf(self) -> bool {
        &&& self.properties.wf()
        &&& self.plane.wf()
        &&& self.plane.width == self.properties.variant.width
        &&& self.plane.height == self.properties.variant.height
        &&& match self.dirty {
            DirtyRegion::Empty => true,
            DirtyRegion::Span { min_x, min_y, max_x, max_y } => {
                min_x <= max_x < self.plane.width && min_y <= max_y < self.plane.height
            },
        }
    }

    /// Wrap a properties object in full-framebuffer mode: a zeroed buffer,
    /// and the whole screen marked dirty so the first flush sends all of it.
    pub fn new(properties: DisplayProperties<DI>) -> (r: GraphicsMode<DI>)
        requires
            properties.wf(),
        ensures
            r.wf(),
            r.properties == properties,
            forall|a: int, b: int| r.plane.in_bounds(a, b) ==> !r.plane.spec_bit(a, b),
            r.dirty == (DirtyRegion::Span {
                min_x: 0u8,
                min_y: 0u8,
                max_x: (properties.variant.width - 1) as u8,
                max_y: (properties.variant.height - 1) as u8,
            }),
    {
        let w = properties.variant.width;
        let h = properties.variant.height;
        let plane = Plane::new(w, h);
        GraphicsMode {
            properties,
            plane,
            dirty: DirtyRegion::Span { min_x: 0, min_y: 0, max_x: w - 1, max_y: h - 1 },
        }
    }

    /// Release the underlying properties object for reuse in another mode.
    pub fn release(self) -> (r: DisplayProperties<DI>)
        ensures
            r == self.properties,
    {
        self.properties
    }

    /// Zero the whole buffer and mark the whole screen dirty. Nothing is
    /// sent until `flush`.
    pub fn clear(&mut self)
        requires
            old(self).wf(),
        ensures
            final(self).wf(),
            final(self).properties == old(self).properties,
            forall|a: int, b: int|
                old(self).plane.in_bounds(a, b) ==> !final(self).plane.spec_bit(a, b),
            final(self).dirty == (DirtyRegion::Span {
                min_x: 0u8,
                min_y: 0u8,
                max_x: (old(self).plane.width - 1) as u8,
                max_y: (old(self).plane.height - 1) as u8,
            }),
    {
        self.plane.clear();
        let w = self.plane.width;
        let h = self.plane.height;
        self.dirty = DirtyRegion::Span { min_x: 0, min_y: 0, max_x: w - 1, max_y: h - 1 };
    }

    /// Turn a pixel on or off: a non-zero `value` is on, `0` is off. The
    /// logical coordinates are rotated, and an out-of-bounds write is a
    /// no-op; an in-bounds write flips exactly one bit and grows the dirty
    /// region to the written point.
    pub fn set_pixel(&mut self, x: u32, y: u32, value: u8)
        requires
            old(self).wf(),
        ensures
            final(self).wf(),
            final(self).properties == old(self).properties,
            ({
                let pt = old(self).properties.display_rotation.spec_transform(x, y);
                if old(self).plane.in_bounds(pt.0 as int, pt.1 as int) {
                    &&& final(self).plane.bytes@ == old(self).plane.spec_with_bit(
                        pt.0 as int,
                        pt.1 as int,
                        value != 0,
                    )
                    &&& final(self).dirty == old(self).dirty.spec_include_point(
                        pt.0 as u8,
                        pt.1 as u8,
                    )
                } else {
                    *final(self) == *old(self)
                }
            }),
            forall|a: int, b: int|
                old(self).plane.in_bounds(a, b) ==> final(self).plane.spec_bit(a, b) == ({
                    let pt = old(self).properties.display_rotation.spec_transform(x, y);
                    if a == pt.0 as int && b == pt.1 as int && old(self).plane.in_bounds(
                        pt.0 as int,
                        pt.1 as int,
                    ) {
                        value != 0
                    } else {
                        old(self).plane.spec_bit(a, b)
                    }
                }),
    {
        let rot = self.properties.get_rotation();
        let (px, py) = rot.transform(x, y);
        if px < self.plane.width as u32 && py < self.plane.height as u32 {
            let ghost before = self.plane;
            self.plane.set_bit(px, py, value != 0);
            proof {
                before.lemma_with_bit_bits(self.plane, px as int, py as int, value != 0);
            }
            self.dirty = self.dirty.include_point(px as u8, py as u8);
        }
    }

    /// Read the pixel at logical `(x, y)` back, or `None` out of bounds.
    pub fn get_pixel(&self, x: u32, y: u32) -> (r: Option<bool>)
        requires
            self.wf(),
        ensures
            ({
                let pt = self.properties.display_rotation.spec_transform(x, y);
                if self.plane.in_bounds(pt.0 as int, pt.1 as int) {
                    r == Some(self.plane.spec_bit(pt.0 as int, pt.1 as int))
                } else {
                    r is None
                }
            }),
    {
        let rot = self.properties.get_rotation();
        let (px, py) = rot.transform(x, y);
        if px < self.plane.width as u32 && py < self.plane.height as u32 {
            Some(self.plane.get_bit(px, py))
        } else {
            None
        }
    }

    /// Fill a logical rectangle with one color: the rectangle is clipped to
    /// the rotated bounds, every pixel inside ends at `on`, every pixel
    /// outside keeps its value, and the dirty region grows by exactly the
    /// clipped rectangle.
    pub fn fill_solid(&mut self, area: &Rect, on: bool)
        requires
            old(self).wf(),
        ensures
            final(self).wf(),
            final(self).properties == old(self).properties,
            final(self).dirty == spec_dirty_after_fill(*old(self), *area),
            forall|a: int, b: int|
                old(self).plane.in_bounds(a, b) ==> final(self).plane.spec_bit(a, b) == (
                if spec_covers(*old(self), *area, a, b) {
                    on
                } else {
                    old(self).plane.spec_bit(a, b)
                }),
    {
        let (lw, lh) = self.properties.get_dimensions();
        let (cx0, cy0, cx1, cy1) = area.clip(lw as u16, lh as u16);
        let rot = self.properties.get_rotation();
        let (px0, py0, px1, py1) = if rot.swaps_axes() {
            (cy0, cx0, cy1, cx1)
        } else {
            (cx0, cy0, cx1, cy1)
        };
        if px0 < px1 && py0 < py1 {
            self.dirty = self.dirty.include_rect(
                px0 as u8,
                py0 as u8,
                (px1 - 1) as u8,
                (py1 - 1) as u8,
            );
            self.plane.fill_rect_banded(px0, py0, px1, py1, on);
        }
    }

    /// Initialize the display in column mode and apply the current rotation.
    pub fn init(&mut self) -> (r: Result<(), DisplayError>)
        requires
            old(self).wf(),
        ensures
            final(self).wf(),
            final(self).plane == old(self).plane,
            final(self).dirty == old(self).dirty,
            final(self).properties.same_config(old(self).properties),
            r is Ok ==> final(self).properties.events@ == old(self).properties.events@
                + command_events(old(self).properties.variant.init_sequence@) + rotation_events(
                old(self).properties.display_rotation,
            ),
            r is Err ==> old(self).properties.events@.is_prefix_of(
                final(self).properties.events@,
            ),
    {
        self.properties.init_column_mode()
    }

    /// Send the dirty region to the device: one page write per dirty page,
    /// cropped to the dirty columns, then reset the dirty region. An empty
    /// dirty region sends nothing at all.
    #[verifier::loop_isolation(false)]
    pub fn flush(&mut self) -> (r: Result<(), DisplayError>)
        requires
            old(self).wf(),
        ensures
            final(self).wf(),
            final(self).plane == old(self).plane,
            final(self).properties.same_config(old(self).properties),
            old(self).dirty is Empty ==> *final(self) == *old(self) && r is Ok,
            r is Ok ==> final(self).dirty is Empty && final(self).properties.events@ == old(
                self,
            ).properties.events@ + spec_flush_events(*old(self)),
            r is Err ==> final(self).dirty == old(self).dirty && old(
                self,
            ).properties.events@.is_prefix_of(final(self).properties.events@),
    {
        let ghost pre = *old(self);
        match self.dirty {
            DirtyRegion::Empty => Ok(()),
            DirtyRegion::Span { min_x, min_y, max_x, max_y } => {
                let base_page = min_y / 8;
                let end_page = max_y / 8 + 1;
                let w = self.plane.width as usize;
                let ghost v = pre.properties.variant;
                let mut p = base_page;
                while p < end_page
                    invariant
                        base_page <= p <= end_page,
                        self.plane == pre.plane,
                        self.dirty == pre.dirty,
                        self.properties.same_config(pre.properties),
                        self.properties.events@ == pre.properties.events@ + flush_page_events(
                            v,
                            pre.plane.bytes@,
                            min_x,
                            max_x,
                            base_page as int,
                            p as int,
                        ),
                    decreases end_page - p,
                {
                    proof {
                        self.plane.lemma_index_in_range(max_x as int, 8 * (p as int));
                        crate::plane::lemma_byte_index_parts(
                            self.plane.width as int,
                            max_x as int,
                            p as int,
                        );
                        vstd::arithmetic::div_mod::lemma_fundamental_div_mod_converse(
                            8 * (p as int),
                            8,
                            p as int,
                            0,
                        );
                    }
                    let start = (p as usize) * w + min_x as usize;
                    let end = (p as usize) * w + max_x as usize + 1;
                    let buf = vstd::slice::slice_subrange(self.plane.bytes.as_slice(), start, end);
                    let ghost before = self.properties.events@;
                    match self.properties.draw_page(p, min_x, buf) {
                        Ok(()) => {},
                        Err(e) => {
                            proof {
                                let pw = page_write_events(v, p, min_x, buf@);
                                let k = choose|k: int|
                                    0 <= k < 4 && self.properties.events@ == before + pw.take(k);
                                assert(self.properties.events@ == before + pw.take(k));
                                assert(pre.properties.events@ =~= self.properties.events@.subrange(
                                    0,
                                    pre.properties.events@.len() as int,
                                ));
                            }
                            return Err(e);
                        },
                    }
                    proof {
                        assert(self.properties.events@ =~= pre.properties.events@
                            + flush_page_events(
                            v,
                            pre.plane.bytes@,
                            min_x,
                            max_x,
                            base_page as int,
                            p as int + 1,
                        ));
                    }
                    p = p + 1;
                }
                self.dirty = DirtyRegion::Empty;
                Ok(())
            },
        }
    }

    /// The caller-facing dimensions under the current rotation.
    pub fn get_dimensions(&self) -> (r: (u8, u8))
        ensures
            r == self.properties.spec_dimensions(),
    {
        self.properties.get_dimensions()
    }

    /// The current rotation.
    pub fn get_rotation(&self) -> (r: DisplayRotation)
        ensures
            r == self.properties.display_rotation,
    {
        self.properties.get_rotation()
    }

    /// Set the rotation, issuing the two orientation commands for it.
    pub fn set_rotation(&mut self, rot: DisplayRotation) -> (r: Result<(), DisplayError>)
        requires
            old(self).wf(),
        ensures
            final(self).wf(),
            final(self).plane == old(self).plane,
            final(self).dirty == old(self).dirty,
            final(self).properties.variant == old(self).properties.variant,
            final(self).properties.display_rotation == rot,
            r is Ok ==> final(self).properties.events@ == old(self).properties.events@
                + rotation_events(rot),
            r is Err ==> old(self).properties.events@.is_prefix_of(
                final(self).properties.events@,
            ),
    {
        let r = self.properties.set_rotation(rot);
        proof {
            if r is Err {
                let ev = rotation_events(rot);
                let k = choose|k: int|
                    0 <= k < 2 && self.properties.events@ == old(
                        self,
                    ).properties.events@ + ev.take(k);
                assert(self.properties.events@ == old(self).properties.events@ + ev.take(k));
                assert(old(self).properties.events@ =~= self.properties.events@.subrange(
                    0,
                    old(self).properties.events@.len() as int,
                ));
            }
        }
        r
    }

    /// Turn the display on or off. Its memory is kept while off.
    pub fn display_on(&mut self, on: bool) -> (r: Result<(), DisplayError>)
        requires
            old(self).wf(),
        ensures
            final(self).wf(),
            final(self).plane == old(self).plane,
            final(self).dirty == old(self).dirty,
            final(self).properties.same_config(old(self).properties),
            r is Ok ==> final(self).properties.events@ == old(self).properties.events@.push(
                SinkEvent::Command(crate::command::Command::DisplayOn(on)),
            ),
            r is Err ==> final(self).properties.events@ == old(self).properties.events@,
    {
        self.properties.display_on(on)
    }

    /// Set the display contrast.
    pub fn set_contrast(&mut self, contrast: u8) -> (r: Result<(), DisplayError>)
        requires
            old(self).wf(),
        ensures
            final(self).wf(),
            final(self).plane == old(self).plane,
            final(self).dirty == old(self).dirty,
            final(self).properties.same_config(old(self).properties),
            r is Ok ==> final(self).properties.events@ == old(self).properties.events@.push(
                SinkEvent::Command(crate::command::Command::Contrast(contrast)),
            ),
            r is Err ==> final(self).properties.events@ == old(self).properties.events@,
    {
        self.properties.set_contrast(contrast)
    }
}

} // verus!
