//! Sub-framebuffer primitives (pages and tiles) and the tiled display mode.
//!
//! A `Page` is one 8-row band of pixels, one byte per column; a `Tile` is a
//! stack of pages with an anchor locating it on the physical plane. They own
//! their bytes independently of any full-screen buffer, for surgical updates
//! of a known region; every write needs an explicit caller-issued transfer.

use vstd::prelude::*;
use crate::command::DisplayError;
use crate::interface::{DisplayInterface, SinkEvent};
use crate::plane::{
    apply_mask_spec, bit_of, lemma_apply_mask_bits, lemma_mask_range_bits, mask_range,
};
use crate::properties::{page_write_events, DisplayProperties};
use crate::rect::Rect;

verus! {

/// An operation on a buffered pixel.
#[derive(Clone, Copy, Debug, PartialEq, Eq, Structural)]
pub enum PixelOperation {
    /// Set the pixel to 1.
    On,
    /// Set the pixel to 0.
    Off,
    /// Toggle the pixel.
    Toggle,
}

/// The result of applying `mask` to byte `b` under `op`.
pub open spec fn apply_op_spec(b: u8, mask: u8, op: PixelOperation) -> u8 {
    match op {
        PixelOperation::On => b | mask,
        PixelOperation::Off => b & !mask,
        PixelOperation::Toggle => b ^ mask,
    }
}

/// What `op` does to a single pixel bit.
pub open spec fn op_bit(op: PixelOperation, old_bit: bool) -> bool {
    match op {
        PixelOperation::On => true,
        PixelOperation::Off => false,
        PixelOperation::Toggle => !old_bit,
    }
}

pub proof fn lemma_xor_bits(b: u8, m: u8, k: u32)
    by (bit_vector)
    ensures
        k < 8 ==> bit_of(b ^ m, k) == (bit_of(b, k) != bit_of(m, k)),
{
}

/// Masked bits take the operation's result, unmasked bits keep their value.
pub proof fn lemma_apply_op_bits(b: u8, m: u8, op: PixelOperation, k: u32)
    requires
        k < 8,
    ensures
        bit_of(apply_op_spec(b, m, op), k) == (if bit_of(m, k) {
            op_bit(op, bit_of(b, k))
        } else {
            bit_of(b, k)
        }),
{
    match op {
        PixelOperation::On => {
            lemma_apply_mask_bits(b, m, true, k);
            assert(apply_op_spec(b, m, op) == apply_mask_spec(b, m, true));
        },
        PixelOperation::Off => {
            lemma_apply_mask_bits(b, m, false, k);
            assert(apply_op_spec(b, m, op) == apply_mask_spec(b, m, false));
        },
        PixelOperation::Toggle => {
            lemma_xor_bits(b, m, k);
        },
    }
}

/// One aligned 8-pixel-tall band of columns, one byte per column, LSB at
/// the top of the column.
#[derive(Debug)]
pub struct Page {
    /// One byte per column.
    pub bytes: Vec<u8>,
}

impl Page {
    /// Well-formedness: the width fits a `u8` column index.
    pub open spec fn wf(self) -> bool {
        self.bytes.len() <= 255
    }

    /// Width in columns.
    pub open spec fn spec_width(self) -> int {
        self.bytes.len() as int
    }

    /// The pixel in column `x`, row `y % 8`.
    pub open spec fn spec_bit(self, x: int, y: int) -> bool {
        bit_of(self.bytes[x], (y % 8) as u32)
    }

    /// A page of `width` columns, every byte holding `pattern`.
    pub fn new(width: u8, pattern: u8) -> (r: Page)
        ensures
            r.wf(),
            r.bytes@ == Seq::new(width as nat, |i: int| pattern),
    {
        let mut bytes: Vec<u8> = Vec::new();
        let mut i: u8 = 0;
        while i < width
            invariant
                i <= width,
                bytes@ =~= Seq::new(i as nat, |j: int| pattern),
            decreases width - i,
        {
            bytes.push(pattern);
            proof {
                assert(bytes@ =~= Seq::new(i as nat + 1, |j: int| pattern));
            }
            i = i + 1;
        }
        Page { bytes }
    }

    /// Overwrite every byte with `pattern`.
    #[verifier::loop_isolation(false)]
    pub fn fill(&mut self, pattern: u8)
        ensures
            final(self).bytes@ == Seq::new(old(self).bytes@.len(), |i: int| pattern),
    {
        let n = self.bytes.len();
        let mut i: usize = 0;
        while i < n
            invariant
                i <= n,
                self.bytes.len() == n,
                forall|j: int| 0 <= j < i ==> self.bytes[j] == pattern,
                forall|j: int| i <= j < n ==> self.bytes[j] == old(self).bytes[j],
            decreases n - i,
        {
            self.bytes.set(i, pattern);
            i = i + 1;
        }
        proof {
            assert(self.bytes@ =~= Seq::new(old(self).bytes@.len(), |i: int| pattern));
        }
    }

    /// Overwrite the bytes of columns `x0..x1` with `value`, leaving the
    /// other columns alone.
    #[verifier::loop_isolation(false)]
    pub fn fill_range(&mut self, x0: u8, x1: u8, value: u8)
        requires
            x0 <= x1,
            x1 as int <= old(self).bytes@.len(),
        ensures
            final(self).bytes@.len() == old(self).bytes@.len(),
            forall|i: int|
                0 <= i < old(self).bytes@.len() ==> final(self).bytes[i] == (if x0 <= i < x1 {
                    value
                } else {
                    old(self).bytes[i]
                }),
    {
        let mut c = x0;
        while c < x1
            invariant
                x0 <= c <= x1,
                self.bytes.len() == old(self).bytes.len(),
                forall|i: int|
                    0 <= i < old(self).bytes@.len() ==> self.bytes[i] == (if x0 <= i < c {
                        value
                    } else {
                        old(self).bytes[i]
                    }),
            decreases x1 - c,
        {
            self.bytes.set(c as usize, value);
            c = c + 1;
        }
    }

    /// Apply `op` through a single pixel mask `1 << (y % 8)` in column `x`;
    /// a column outside the page is a no-op.
    pub fn modify_pixel(&mut self, x: u8, y: u8, op: PixelOperation)
        ensures
            final(self).bytes@.len() == old(self).bytes@.len(),
            (x as int) < old(self).bytes@.len() ==> final(self).bytes@ == old(
                self,
            ).bytes@.update(
                x as int,
                apply_op_spec(
                    old(self).bytes[x as int],
                    mask_range((y % 8) as u32, (y % 8 + 1) as u32),
                    op,
                ),
            ),
            (x as int) >= old(self).bytes@.len() ==> final(self).bytes@ == old(self).bytes@,
            forall|i: int, k: int|
                0 <= i < old(self).bytes@.len() && 0 <= k < 8 ==> final(self).spec_bit(i, k) == (
                if i == x as int && k == (y % 8) as int {
                    op_bit(op, old(self).spec_bit(i, k))
                } else {
                    old(self).spec_bit(i, k)
                }),
    {
        if (x as usize) < self.bytes.len() {
            let sh: u32 = (y % 8) as u32;
            let mask: u8 = 1u8 << sh;
            proof {
                assert(sh < 8 ==> 1u8 << sh == mask_range(sh, (sh + 1) as u32)) by (bit_vector);
            }
            let b = self.bytes[x as usize];
            let nb = match op {
                PixelOperation::On => b | mask,
                PixelOperation::Off => b & !mask,
                PixelOperation::Toggle => b ^ mask,
            };
            self.bytes.set(x as usize, nb);
            proof {
                assert forall|i: int, k: int|
                    0 <= i < old(self).bytes@.len() && 0 <= k < 8 implies self.spec_bit(i, k) == (
                if i == x as int && k == (y % 8) as int {
                    op_bit(op, old(self).spec_bit(i, k))
                } else {
                    old(self).spec_bit(i, k)
                }) by {
                    lemma_apply_op_bits(old(self).bytes[x as int], mask, op, k as u32);
                    lemma_mask_range_bits(sh, (sh + 1) as u32, k as u32);
                }
            }
        }
    }

    /// Apply one mask byte with `op` across the half-open column range
    /// `start..end`, clamped to the page; `end < start` is a no-op.
    #[verifier::loop_isolation(false)]
    pub fn apply_mask(&mut self, mask: u8, start: u8, end: u8, op: PixelOperation)
        ensures
            final(self).bytes@.len() == old(self).bytes@.len(),
            end < start ==> final(self).bytes@ == old(self).bytes@,
            start <= end ==> forall|i: int|
                0 <= i < old(self).bytes@.len() ==> final(self).bytes[i] == (if start <= i < end {
                    apply_op_spec(old(self).bytes[i], mask, op)
                } else {
                    old(self).bytes[i]
                }),
    {
        if end < start {
            return ;
        }
        let n = self.bytes.len();
        let lo: usize = if (start as usize) < n {
            start as usize
        } else {
            n
        };
        let hi: usize = if (end as usize) < n {
            end as usize
        } else {
            n
        };
        let mut c = lo;
        while c < hi
            invariant
                lo <= c <= hi,
                self.bytes.len() == n,
                forall|i: int|
                    0 <= i < n ==> self.bytes[i] == (if lo <= i < c {
                        apply_op_spec(old(self).bytes[i], mask, op)
                    } else {
                        old(self).bytes[i]
                    }),
            decreases hi - c,
        {
            let b = self.bytes[c];
            let nb = match op {
                PixelOperation::On => b | mask,
                PixelOperation::Off => b & !mask,
                PixelOperation::Toggle => b ^ mask,
            };
            self.bytes.set(c, nb);
            c = c + 1;
        }
    }

    /// Fill the part of the page that the rectangle covers with `on`: the
    /// rectangle is clipped to the page's `width x 8` box, the covered rows
    /// become one mask, and the mask is applied across the covered columns.
    pub fn fill_solid(&mut self, area: &Rect, on: bool)
        requires
            old(self).wf(),
        ensures
            final(self).wf(),
            final(self).bytes@.len() == old(self).bytes@.len(),
            forall|i: int, k: int|
                0 <= i < old(self).bytes@.len() && 0 <= k < 8 ==> final(self).spec_bit(i, k) == (
                if area.spec_contains(i, k) {
                    on
                } else {
                    old(self).spec_bit(i, k)
                }),
    {
        let w = self.bytes.len() as u8;
        let (x0, y0, x1, y1) = area.clip(w as u16, 8);
        if x0 < x1 && y0 < y1 {
            let d: u32 = y1 - y0;
            let mask: u8 = if d == 8 {
                0xFF
            } else {
                proof {
                    assert(1 <= d && d < 8 ==> (1u8 << d) >= 1) by (bit_vector);
                }
                ((1u8 << d) - 1) << y0
            };
            proof {
                assert(1 <= d && d < 8 && y0 + d <= 8 ==> ((((1u8 << d) - 1) as u8) << y0)
                    == mask_range(y0, (y0 + d) as u32)) by (bit_vector);
                assert(mask_range(0u32, 8u32) == 0xFFu8) by (bit_vector);
            }
            let op = if on {
                PixelOperation::On
            } else {
                PixelOperation::Off
            };
            self.apply_mask(mask, x0 as u8, x1 as u8, op);
            proof {
                assert forall|i: int, k: int|
                    0 <= i < old(self).bytes@.len() && 0 <= k < 8 implies self.spec_bit(i, k) == (
                if area.spec_contains(i, k) {
                    on
                } else {
                    old(self).spec_bit(i, k)
                }) by {
                    lemma_mask_range_bits(y0, y1, k as u32);
                    if x0 <= i < x1 {
                        lemma_apply_op_bits(old(self).bytes[i], mask, op, k as u32);
                    }
                }
            }
        }
    }
}

/// A stack of pages anchored at a column and a page address on the plane.
#[derive(Debug)]
pub struct Tile {
    /// The pages backing the tile, top to bottom.
    pub pages: Vec<Page>,
    /// The tile's leftmost column on the plane.
    pub col_offset: u8,
    /// The plane page address of the tile's first page.
    pub page_offset: u8,
}

impl Tile {
    /// Width in columns: every page has this many bytes.
    pub open spec fn spec_width(self) -> int {
        if self.pages.len() > 0 {
            self.pages[0].spec_width()
        } else {
            0
        }
    }

    /// Well-formedness: uniform page widths that fit a `u8`.
    pub open spec fn wf(self) -> bool {
        &&& self.pages.len() <= 255
        &&& forall|p: int|
            0 <= p < self.pages.len() ==> (#[trigger] self.pages[p]).spec_width()
                == self.spec_width()
        &&& self.spec_width() <= 255
    }

    /// The pixel at tile-relative `(x, y)`.
    pub open spec fn spec_bit(self, x: int, y: int) -> bool {
        self.pages[y / 8].spec_bit(x, y % 8)
    }

    /// Whether tile-relative `(x, y)` lies on the tile.
    pub open spec fn in_bounds(self, x: int, y: int) -> bool {
        0 <= x < self.spec_width() && 0 <= y < 8 * self.pages.len()
    }

    /// Apply `op` to the pixel at tile-relative `(x, y)`; coordinates off
    /// the tile are a no-op.
    pub fn modify_pixel(&mut self, x: u8, y: u8, op: PixelOperation)
        requires
            old(self).wf(),
        ensures
            final(self).wf(),
            final(self).col_offset == old(self).col_offset,
            final(self).page_offset == old(self).page_offset,
            final(self).pages@.len() == old(self).pages@.len(),
            final(self).spec_width() == old(self).spec_width(),
            forall|a: int, b: int|
                old(self).in_bounds(a, b) ==> final(self).spec_bit(a, b) == (if a == x as int && b
                    == y as int && old(self).in_bounds(x as int, y as int) {
                    op_bit(op, old(self).spec_bit(a, b))
                } else {
                    old(self).spec_bit(a, b)
                }),
    {
        let np = self.pages.len();
        if (y as usize) / 8 < np {
            let pi = (y as usize) / 8;
            let page = &mut self.pages[pi];
            page.modify_pixel(x, y % 8, op);
            proof {
                assert forall|a: int, b: int| old(self).in_bounds(a, b) implies self.spec_bit(a, b)
                    == (if a == x as int && b == y as int && old(self).in_bounds(
                    x as int,
                    y as int,
                ) {
                    op_bit(op, old(self).spec_bit(a, b))
                } else {
                    old(self).spec_bit(a, b)
                }) by {
                    vstd::arithmetic::div_mod::lemma_fundamental_div_mod(b, 8);
                    vstd::arithmetic::div_mod::lemma_fundamental_div_mod(y as int, 8);
                    if b / 8 == pi as int {
                        assert(self.pages[b / 8] == *final(page));
                    } else {
                        assert(self.pages[b / 8] == old(self).pages[b / 8]);
                    }
                }
            }
        }
    }

    /// Fill the part of the tile that the tile-relative rectangle covers
    /// with `on`: page by page, whole bytes where the rectangle spans the
    /// full 8 rows, a single mask write where it does not.
    #[verifier::loop_isolation(false)]
    pub fn fill_solid(&mut self, area: &Rect, on: bool)
        requires
            old(self).wf(),
        ensures
            final(self).wf(),
            final(self).col_offset == old(self).col_offset,
            final(self).page_offset == old(self).page_offset,
            final(self).pages@.len() == old(self).pages@.len(),
            final(self).spec_width() == old(self).spec_width(),
            forall|a: int, b: int|
                old(self).in_bounds(a, b) ==> final(self).spec_bit(a, b) == (if area.spec_contains(
                    a,
                    b,
                ) {
                    on
                } else {
                    old(self).spec_bit(a, b)
                }),
    {
        let ghost pre = *self;
        let w = if self.pages.len() == 0 {
            0u8
        } else {
            self.pages[0].bytes.len() as u8
        };
        let np = self.pages.len() as u8;
        let h8: u16 = np as u16 * 8;
        let (x0, y0, x1, y1) = area.clip(w as u16, h8);
        if x0 < x1 && y0 < y1 {
            let op = if on {
                PixelOperation::On
            } else {
                PixelOperation::Off
            };
            let mut p: u32 = y0 / 8;
            let pend: u32 = (y1 - 1) / 8 + 1;
            while p < pend
                invariant
                    y0 as int / 8 <= p <= pend,
                    self.col_offset == pre.col_offset,
                    self.page_offset == pre.page_offset,
                    self.pages@.len() == pre.pages@.len(),
                    self.wf(),
                    self.spec_width() == pre.spec_width(),
                    forall|a: int, b: int|
                        pre.in_bounds(a, b) ==> self.spec_bit(a, b) == (if x0 <= a < x1 && y0 <= b
                            < y1 && b < 8 * p {
                            on
                        } else {
                            pre.spec_bit(a, b)
                        }),
                decreases pend - p,
            {
                let lo: u32 = if y0 > 8 * p {
                    y0 - 8 * p
                } else {
                    0
                };
                let hi: u32 = if y1 < 8 * p + 8 {
                    y1 - 8 * p
                } else {
                    8
                };
                let ghost prev = *self;
                let pi = p as usize;
                if lo == 0 && hi == 8 {
                    let fill: u8 = if on {
                        0xFF
                    } else {
                        0x00
                    };
                    let page = &mut self.pages[pi];
                    page.fill_range(x0 as u8, x1 as u8, fill);
                    proof {
                        crate::plane::lemma_fill_byte_bits(on, 0);
                    }
                } else {
                    proof {
                        assert(1 <= hi - lo && hi - lo < 8 ==> (1u8 << (hi - lo) as u32) >= 1)
                            by (bit_vector);
                    }
                    let mask: u8 = ((1u8 << (hi - lo)) - 1) << lo;
                    proof {
                        assert(lo < hi && hi <= 8 && hi - lo < 8 ==> ((((1u8 << (hi - lo) as u32)
                            - 1) as u8) << lo) == mask_range(lo, hi)) by (bit_vector);
                    }
                    let page = &mut self.pages[pi];
                    page.apply_mask(mask, x0 as u8, x1 as u8, op);
                }
                proof {
                    assert forall|a: int, b: int| pre.in_bounds(a, b) implies self.spec_bit(a, b)
                        == (if x0 <= a < x1 && y0 <= b < y1 && b < 8 * (p + 1) {
                        on
                    } else {
                        pre.spec_bit(a, b)
                    }) by {
                        vstd::arithmetic::div_mod::lemma_fundamental_div_mod(b, 8);
                        let k = (b % 8) as u32;
                        if b / 8 == p as int {
                            if !(lo == 0 && hi == 8) {
                                lemma_mask_range_bits(lo, hi, k);
                                lemma_apply_op_bits(prev.pages[p as int].bytes[a], mask_range(lo, hi), op, k);
                            } else {
                                crate::plane::lemma_fill_byte_bits(on, k);
                            }
                        } else {
                            assert(self.pages[b / 8] == prev.pages[b / 8]);
                        }
                    }
                }
                p = p + 1;
            }
        }
        proof {
            assert forall|a: int, b: int| pre.in_bounds(a, b) implies self.spec_bit(a, b) == (
            if area.spec_contains(a, b) {
                on
            } else {
                pre.spec_bit(a, b)
            }) by {
                vstd::arithmetic::div_mod::lemma_fundamental_div_mod(b, 8);
            }
        }
    }
}

/// Tiled mode handler: a protocol layer driven page by page from
/// caller-owned tiles and pages.
pub struct TiledMode<DI: DisplayInterface> {
    /// The protocol layer underneath.
    pub properties: DisplayProperties<DI>,
}

/// The page writes that drawing a tile's first `n` pages emits: page `i`
/// lands at address `page_offset + i`, column `col_offset`.
pub open spec fn tile_events(
    v: crate::variant::Variant,
    pages: Seq<Page>,
    n: int,
    page_offset: u8,
    col_offset: u8,
) -> Seq<SinkEvent>
    decreases n,
{
    if n <= 0 {
        Seq::empty()
    } else {
        tile_events(v, pages, n - 1, page_offset, col_offset) + page_write_events(
            v,
            (page_offset + n - 1) as u8,
            col_offset,
            pages[n - 1].bytes@,
        )
    }
}

/// The page writes of a full-screen clear with `pattern`: one full-width
/// page write per page, at column 0.
pub open spec fn clear_events(v: crate::variant::Variant, pattern: u8, n: int) -> Seq<SinkEvent>
    decreases n,
{
    if n <= 0 {
        Seq::empty()
    } else {
        clear_events(v, pattern, n - 1) + page_write_events(
            v,
            (n - 1) as u8,
            0,
            Seq::new(v.width as nat, |i: int| pattern),
        )
    }
}

impl<DI: DisplayInterface> TiledMode<DI> {
    /// Wrap a properties object in tiled mode.
    pub fn new(properties: DisplayProperties<DI>) -> (r: TiledMode<DI>)
        ensures
            r.properties == properties,
    {
        TiledMode { properties }
    }

    /// Release the underlying properties object for reuse in another mode.
    pub fn release(self) -> (r: DisplayProperties<DI>)
        ensures
            r == self.properties,
    {
        self.properties
    }

    /// Draw one page at the given page address and screen column.
    pub fn draw_page(&mut self, addr: u8, col: u8, page: &Page) -> (r: Result<(), DisplayError>)
        requires
            old(self).properties.wf(),
            col as int + old(self).properties.variant.column_offset as int <= 255,
        ensures
            final(self).properties.wf(),
            final(self).properties.same_config(old(self).properties),
            r is Ok ==> final(self).properties.events@ == old(self).properties.events@
                + page_write_events(old(self).properties.variant, addr, col, page.bytes@),
            r is Err ==> old(self).properties.events@.is_prefix_of(
                final(self).properties.events@,
            ),
    {
        let r = self.properties.draw_page(addr, col, page.bytes.as_slice());
        proof {
            if r is Err {
                let pw = page_write_events(old(self).properties.variant, addr, col, page.bytes@);
                let k = choose|k: int|
                    0 <= k < 4 && self.properties.events@ == old(
                        self,
                    ).properties.events@ + pw.take(k);
                assert(self.properties.events@ == old(self).properties.events@ + pw.take(k));
                assert(old(self).properties.events@ =~= self.properties.events@.subrange(
                    0,
                    old(self).properties.events@.len() as int,
                ));
            }
        }
        r
    }

    /// Draw a whole tile: one page write per page, at consecutive page
    /// addresses from the tile's anchor.
    #[verifier::loop_isolation(false)]
    pub fn draw_tile(&mut self, tile: &Tile) -> (r: Result<(), DisplayError>)
        requires
            old(self).properties.wf(),
            tile.page_offset as int + tile.pages@.len() <= 256,
            tile.col_offset as int + old(self).properties.variant.column_offset as int <= 255,
        ensures
            final(self).properties.wf(),
            final(self).properties.same_config(old(self).properties),
            r is Ok ==> final(self).properties.events@ == old(self).properties.events@
                + tile_events(
                old(self).properties.variant,
                tile.pages@,
                tile.pages@.len() as int,
                tile.page_offset,
                tile.col_offset,
            ),
            r is Err ==> old(self).properties.events@.is_prefix_of(
                final(self).properties.events@,
            ),
    {
        let ghost pre = *old(self);
        let n = tile.pages.len();
        let mut i: usize = 0;
        while i < n
            invariant
                i <= n,
                self.properties.wf(),
                self.properties.same_config(pre.properties),
                self.properties.events@ == pre.properties.events@ + tile_events(
                    pre.properties.variant,
                    tile.pages@,
                    i as int,
                    tile.page_offset,
                    tile.col_offset,
                ),
            decreases n - i,
        {
            let addr = tile.page_offset + i as u8;
            match self.draw_page(addr, tile.col_offset, &tile.pages[i]) {
                Ok(()) => {},
                Err(e) => {
                    proof {
                        assert(pre.properties.events@ =~= self.properties.events@.subrange(
                            0,
                            pre.properties.events@.len() as int,
                        ));
                    }
                    return Err(e);
                },
            }
            proof {
                assert(self.properties.events@ =~= pre.properties.events@ + tile_events(
                    pre.properties.variant,
                    tile.pages@,
                    i as int + 1,
                    tile.page_offset,
                    tile.col_offset,
                ));
            }
            i = i + 1;
        }
        Ok(())
    }

    /// Clear the whole screen with a byte pattern: one full-width page write
    /// per page of the panel.
    #[verifier::loop_isolation(false)]
    pub fn clear(&mut self, pattern: u8) -> (r: Result<(), DisplayError>)
        requires
            old(self).properties.wf(),
        ensures
            final(self).properties.wf(),
            final(self).properties.same_config(old(self).properties),
            r is Ok ==> final(self).properties.events@ == old(self).properties.events@
                + clear_events(
                old(self).properties.variant,
                pattern,
                old(self).properties.variant.height as int / 8,
            ),
            r is Err ==> old(self).properties.events@.is_prefix_of(
                final(self).properties.events@,
            ),
    {
        let ghost pre = *old(self);
        let page = Page::new(self.properties.variant.width, pattern);
        let pages = self.properties.variant.height / 8;
        let mut addr: u8 = 0;
        while addr < pages
            invariant
                addr <= pages,
                self.properties.wf(),
                self.properties.same_config(pre.properties),
                self.properties.events@ == pre.properties.events@ + clear_events(
                    pre.properties.variant,
                    pattern,
                    addr as int,
                ),
            decreases pages - addr,
        {
            match self.draw_page(addr, 0, &page) {
                Ok(()) => {},
                Err(e) => {
                    proof {
                        assert(pre.properties.events@ =~= self.properties.events@.subrange(
                            0,
                            pre.properties.events@.len() as int,
                        ));
                    }
                    return Err(e);
                },
            }
            proof {
                assert(self.properties.events@ =~= pre.properties.events@ + clear_events(
                    pre.properties.variant,
                    pattern,
                    addr as int + 1,
                ));
            }
            addr = addr + 1;
        }
        Ok(())
    }
}

} // verus!
