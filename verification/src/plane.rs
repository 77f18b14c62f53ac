//! Packed byte-plane: the 1-bit-per-pixel framebuffer representation.
//!
//! A plane of physical width `w` and height `h` (with `h` a multiple of 8)
//! is a flat sequence of `w * h / 8` bytes. The byte at index
//! `(y / 8) * w + x` holds the 8 vertically stacked pixels of column `x`,
//! rows `8 * (y / 8) .. 8 * (y / 8) + 8`; bit `y % 8` (LSB first) is the
//! pixel at row `y`.

use vstd::prelude::*;
use vstd::arithmetic::div_mod::{
    lemma_fundamental_div_mod, lemma_fundamental_div_mod_converse, lemma_mod_bound,
    lemma_multiply_divide_lt,
};
use vstd::arithmetic::mul::{
    lemma_mul_inequality, lemma_mul_is_commutative, lemma_mul_is_distributive_add_other_way,
};

verus! {

/// Whether bit `i` (LSB first) of byte `b` is set.
pub open spec fn bit_of(b: u8, i: u32) -> bool
    recommends
        i < 8,
{
    (b >> i) & 1 == 1
}

/// A byte with exactly bits `lo..hi` set, for `0 <= lo < hi <= 8`.
pub open spec fn mask_range(lo: u32, hi: u32) -> u8
    recommends
        lo < hi <= 8,
{
    (((1u16 << ((hi - lo) as u32)) - 1) as u8) << lo
}

/// The result of applying mask `m` to byte `b`: masked bits are forced to
/// `on`, the rest keep their value.
pub open spec fn apply_mask_spec(b: u8, m: u8, on: bool) -> u8 {
    if on {
        b | m
    } else {
        b & !m
    }
}

pub proof fn lemma_apply_mask_bits(b: u8, m: u8, on: bool, k: u32)
    by (bit_vector)
    ensures
        k < 8 ==> bit_of(apply_mask_spec(b, m, on), k) == (if bit_of(m, k) {
            on
        } else {
            bit_of(b, k)
        }),
{
}

pub proof fn lemma_mask_range_bits(lo: u32, hi: u32, k: u32)
    by (bit_vector)
    ensures
        lo < hi <= 8 && k < 8 ==> bit_of(mask_range(lo, hi), k) == (lo <= k < hi),
{
}

pub proof fn lemma_full_mask_bits(k: u32)
    by (bit_vector)
    ensures
        k < 8 ==> bit_of(0xFFu8, k),
        k < 8 ==> !bit_of(0u8, k),
{
}

pub proof fn lemma_fill_byte_bits(on: bool, k: u32)
    by (bit_vector)
    ensures
        k < 8 ==> bit_of(
            if on {
                0xFFu8
            } else {
                0u8
            },
            k,
        ) == on,
{
}

/// Two bytes whose eight bits agree are equal.
pub proof fn lemma_bits_determine_byte(a: u8, b: u8)
    by (bit_vector)
    requires
        bit_of(a, 0) == bit_of(b, 0),
        bit_of(a, 1) == bit_of(b, 1),
        bit_of(a, 2) == bit_of(b, 2),
        bit_of(a, 3) == bit_of(b, 3),
        bit_of(a, 4) == bit_of(b, 4),
        bit_of(a, 5) == bit_of(b, 5),
        bit_of(a, 6) == bit_of(b, 6),
        bit_of(a, 7) == bit_of(b, 7),
    ensures
        a == b,
{
}

/// The mask of the rows of page `p` that the row span `y0..y1` covers.
pub open spec fn page_mask(y0: int, y1: int, p: int) -> u8 {
    let lo = if y0 <= 8 * p {
        0int
    } else {
        y0 - 8 * p
    };
    let hi = if y1 >= 8 * p + 8 {
        8int
    } else {
        y1 - 8 * p
    };
    if 0 <= lo && lo < hi && hi <= 8 {
        mask_range(lo as u32, hi as u32)
    } else {
        0u8
    }
}

pub proof fn lemma_page_mask_bits(y0: int, y1: int, p: int, k: u32)
    requires
        k < 8,
    ensures
        bit_of(page_mask(y0, y1, p), k) == (y0 <= 8 * p + k < y1),
{
    let lo = if y0 <= 8 * p {
        0int
    } else {
        y0 - 8 * p
    };
    let hi = if y1 >= 8 * p + 8 {
        8int
    } else {
        y1 - 8 * p
    };
    if 0 <= lo && lo < hi && hi <= 8 {
        lemma_mask_range_bits(lo as u32, hi as u32, k);
    } else {
        lemma_full_mask_bits(k);
    }
}

/// The byte holding physical pixel `(x, y)` on a plane of width `w`.
pub open spec fn byte_index(w: int, x: int, y: int) -> int {
    (y / 8) * w + x
}

/// The pixel at physical `(x, y)` of a packed byte sequence of width `w`.
pub open spec fn seq_bit(s: Seq<u8>, w: int, x: int, y: int) -> bool {
    bit_of(s[byte_index(w, x, y)], (y % 8) as u32)
}

/// Two packed byte sequences of the same plane geometry whose pixels all
/// agree are equal.
pub proof fn lemma_bits_determine_seq(w: int, h: int, s1: Seq<u8>, s2: Seq<u8>)
    requires
        1 <= w,
        1 <= h,
        h % 8 == 0,
        s1.len() == w * (h / 8),
        s2.len() == s1.len(),
        forall|x: int, y: int|
            0 <= x < w && 0 <= y < h ==> seq_bit(s1, w, x, y) == seq_bit(s2, w, x, y),
    ensures
        s1 == s2,
{
    let pages = h / 8;
    assert forall|i: int| 0 <= i < s1.len() implies s1[i] == s2[i] by {
        lemma_fundamental_div_mod(i, w);
        lemma_mod_bound(i, w);
        lemma_mul_is_commutative(w, pages);
        lemma_multiply_divide_lt(i, w, pages);
        let c = i % w;
        let p = i / w;
        lemma_fundamental_div_mod(h, 8);
        assert forall|k: u32| k < 8 implies bit_of(s1[i], k) == bit_of(s2[i], k) by {
            let y = 8 * p + k;
            lemma_fundamental_div_mod_converse(y, 8, p, k as int);
            lemma_mul_is_commutative(w, p);
            assert(byte_index(w, c, y) == i);
            assert(seq_bit(s1, w, c, y) == seq_bit(s2, w, c, y));
        }
        lemma_bits_determine_byte(s1[i], s2[i]);
    }
    assert(s1 =~= s2);
}

/// Distinct in-range (column, page) pairs give distinct byte indices:
/// from an index known to be `p * w + c` the column and page are recovered.
pub proof fn lemma_byte_index_parts(w: int, c: int, p: int)
    requires
        0 < w,
        0 <= c < w,
        0 <= p,
    ensures
        (p * w + c) / w == p,
        (p * w + c) % w == c,
{
    lemma_fundamental_div_mod_converse(p * w + c, w, p, c);
}

/// A packed byte-plane with its physical dimensions.
///
/// The representation invariant (`wf`) fixes the buffer length at
/// `width * height / 8` bytes, i.e. `width` bytes for each of the
/// `height / 8` pages.
pub struct Plane {
    /// Physical width in pixels.
    pub width: u8,
    /// Physical height in pixels; always a multiple of 8.
    pub height: u8,
    /// The packed pixel bytes, one page after another.
    pub bytes: Vec<u8>,
}

impl Plane {
    /// Number of 8-row pages.
    pub open spec fn spec_pages(self) -> int {
        self.height as int / 8
    }

    /// Representation invariant: positive dimensions, page-aligned height,
    /// and a buffer of exactly `width * height / 8` bytes.
    pub open spec fn wf(self) -> bool {
        &&& self.width >= 1
        &&& self.height >= 1
        &&& self.height as int % 8 == 0
        &&& self.bytes.len() == self.width as int * self.spec_pages()
    }

    /// Whether physical `(x, y)` lies on the plane.
    pub open spec fn in_bounds(self, x: int, y: int) -> bool {
        0 <= x < self.width as int && 0 <= y < self.height as int
    }

    /// The pixel at physical `(x, y)`.
    pub open spec fn spec_bit(self, x: int, y: int) -> bool
        recommends
            self.in_bounds(x, y),
    {
        seq_bit(self.bytes@, self.width as int, x, y)
    }

    /// In-range byte indices stay within the buffer.
    pub proof fn lemma_index_in_range(self, x: int, y: int)
        requires
            self.wf(),
            self.in_bounds(x, y),
        ensures
            0 <= byte_index(self.width as int, x, y) < self.bytes.len(),
            0 <= y / 8 < self.spec_pages(),
    {
        let w = self.width as int;
        let p = y / 8;
        assert(0 <= p < self.spec_pages());
        lemma_mul_inequality(p + 1, self.spec_pages(), w);
        lemma_mul_is_distributive_add_other_way(w, p, 1);
    }

    /// Create a plane with every pixel off.
    pub fn new(width: u8, height: u8) -> (r: Plane)
        requires
            width >= 1,
            height >= 1,
            height as int % 8 == 0,
        ensures
            r.wf(),
            r.width == width,
            r.height == height,
            forall|x: int, y: int| r.in_bounds(x, y) ==> !r.spec_bit(x, y),
    {
        let pages = (height / 8) as usize;
        proof {
            lemma_mul_inequality(pages as int, 32, width as int);
            vstd::arithmetic::mul::lemma_mul_is_commutative(pages as int, width as int);
        }
        let len = (width as usize) * pages;
        let bytes: Vec<u8> = vec![0u8; len];
        let r = Plane { width, height, bytes };
        proof {
            assert forall|x: int, y: int| r.in_bounds(x, y) implies !r.spec_bit(x, y) by {
                r.lemma_index_in_range(x, y);
                lemma_full_mask_bits((y % 8) as u32);
            }
        }
        r
    }

    /// The plane's bytes after the pixel at `(x, y)` is set to `on`.
    pub open spec fn spec_with_bit(self, x: int, y: int, on: bool) -> Seq<u8>
        recommends
            self.wf(),
            self.in_bounds(x, y),
    {
        let i = byte_index(self.width as int, x, y);
        let m = mask_range((y % 8) as u32, (y % 8 + 1) as u32);
        self.bytes@.update(i, apply_mask_spec(self.bytes[i], m, on))
    }

    /// How `spec_with_bit` reads back, pixel by pixel.
    pub proof fn lemma_with_bit_bits(self, r: Plane, x: int, y: int, on: bool)
        requires
            self.wf(),
            self.in_bounds(x, y),
            r.width == self.width,
            r.height == self.height,
            r.bytes@ == self.spec_with_bit(x, y, on),
        ensures
            r.wf(),
            forall|a: int, b: int|
                self.in_bounds(a, b) ==> r.spec_bit(a, b) == (if a == x && b == y {
                    on
                } else {
                    self.spec_bit(a, b)
                }),
    {
        let w = self.width as int;
        let i = byte_index(w, x, y);
        let m = mask_range((y % 8) as u32, (y % 8 + 1) as u32);
        self.lemma_index_in_range(x, y);
        assert forall|a: int, b: int| self.in_bounds(a, b) implies r.spec_bit(a, b) == (if a == x
            && b == y {
            on
        } else {
            self.spec_bit(a, b)
        }) by {
            self.lemma_index_in_range(a, b);
            let j = byte_index(w, a, b);
            if j == i {
                // Same byte: only the bit `y % 8` of it changes.
                lemma_byte_index_parts(w, a, b / 8);
                lemma_byte_index_parts(w, x, y / 8);
                assert(a == x && b / 8 == y / 8);
                lemma_apply_mask_bits(self.bytes[i], m, on, (b % 8) as u32);
                lemma_mask_range_bits((y % 8) as u32, (y % 8 + 1) as u32, (b % 8) as u32);
                if b == y {
                } else {
                    lemma_fundamental_div_mod(b, 8);
                    lemma_fundamental_div_mod(y, 8);
                    assert(b % 8 != y % 8);
                }
            } else {
                assert(r.bytes[j] == self.bytes[j]);
            }
        }
    }

    /// Set or clear the single pixel at physical `(x, y)`.
    pub fn set_bit(&mut self, x: u32, y: u32, on: bool)
        requires
            old(self).wf(),
            old(self).in_bounds(x as int, y as int),
        ensures
            final(self).wf(),
            final(self).width == old(self).width,
            final(self).height == old(self).height,
            final(self).bytes@ == old(self).spec_with_bit(x as int, y as int, on),
    {
        proof {
            old(self).lemma_index_in_range(x as int, y as int);
        }
        let idx = (y as usize / 8) * (self.width as usize) + x as usize;
        let sh: u32 = y % 8;
        let mask: u8 = 1u8 << sh;
        proof {
            assert(sh < 8 ==> 1u8 << sh == mask_range(sh, (sh + 1) as u32)) by (bit_vector);
        }
        let b = self.bytes[idx];
        let nb = if on {
            b | mask
        } else {
            b & !mask
        };
        self.bytes.set(idx, nb);
        proof {
            assert(self.bytes@ =~= old(self).spec_with_bit(x as int, y as int, on));
        }
    }

    /// Turn every pixel off.
    #[verifier::loop_isolation(false)]
    pub fn clear(&mut self)
        requires
            old(self).wf(),
        ensures
            final(self).wf(),
            final(self).width == old(self).width,
            final(self).height == old(self).height,
            forall|x: int, y: int| old(self).in_bounds(x, y) ==> !final(self).spec_bit(x, y),
    {
        let n = self.bytes.len();
        let mut i: usize = 0;
        while i < n
            invariant
                self.bytes.len() == n,
                self.width == old(self).width,
                self.height == old(self).height,
                i <= n,
                forall|j: int| 0 <= j < i ==> self.bytes[j] == 0u8,
            decreases n - i,
        {
            self.bytes.set(i, 0);
            i = i + 1;
        }
        proof {
            assert forall|x: int, y: int| old(self).in_bounds(x, y) implies !self.spec_bit(
                x,
                y,
            ) by {
                self.lemma_index_in_range(x, y);
                lemma_full_mask_bits((y % 8) as u32);
            }
        }
    }

    /// Read the pixel at physical `(x, y)`.
    pub fn get_bit(&self, x: u32, y: u32) -> (r: bool)
        requires
            self.wf(),
            self.in_bounds(x as int, y as int),
        ensures
            r == self.spec_bit(x as int, y as int),
    {
        proof {
            self.lemma_index_in_range(x as int, y as int);
        }
        let idx = (y as usize / 8) * (self.width as usize) + x as usize;
        (self.bytes[idx] >> (y % 8)) & 1 == 1
    }

    /// Read-modify-write one mask byte across columns `x0..x1` of one page:
    /// the masked rows of each touched byte are forced to `on`, all other
    /// pixels keep their value.
    #[verifier::loop_isolation(false)]
    pub fn apply_mask_to_page(&mut self, page: u32, x0: u32, x1: u32, mask: u8, on: bool)
        requires
            old(self).wf(),
            page < old(self).spec_pages(),
            x0 <= x1 <= old(self).width,
        ensures
            final(self).wf(),
            final(self).width == old(self).width,
            final(self).height == old(self).height,
            forall|a: int, b: int|
                old(self).in_bounds(a, b) ==> final(self).spec_bit(a, b) == (if x0 <= a < x1 && b
                    / 8 == page && bit_of(mask, (b % 8) as u32) {
                    on
                } else {
                    old(self).spec_bit(a, b)
                }),
    {
        let ghost pre = *self;
        let ghost w = self.width as int;
        proof {
            lemma_mul_inequality(page as int + 1, pre.spec_pages(), w);
            lemma_mul_is_distributive_add_other_way(w, page as int, 1);
            lemma_mul_is_commutative(w, pre.spec_pages());
            lemma_mul_is_commutative(w, page as int);
            assert(page as int * w + w <= pre.bytes.len());
        }
        let base = (page as usize) * (self.width as usize);
        let mut c = x0;
        while c < x1
            invariant
                self.wf(),
                self.width == pre.width,
                self.height == pre.height,
                x0 <= c <= x1,
                forall|a: int, b: int|
                    pre.in_bounds(a, b) ==> self.spec_bit(a, b) == (if x0 <= a < c && b / 8 == page
                        && bit_of(mask, (b % 8) as u32) {
                        on
                    } else {
                        pre.spec_bit(a, b)
                    }),
            decreases x1 - c,
        {
            let ghost mid = *self;
            proof {
                lemma_fundamental_div_mod_converse(8 * (page as int), 8, page as int, 0);
                assert(byte_index(w, c as int, 8 * (page as int)) == page * w + c);
            }
            let idx = base + c as usize;
            let bv = self.bytes[idx];
            let nb = if on {
                bv | mask
            } else {
                bv & !mask
            };
            self.bytes.set(idx, nb);
            proof {
                assert forall|a: int, b: int| pre.in_bounds(a, b) implies self.spec_bit(a, b) == (
                if x0 <= a < c + 1 && b / 8 == page && bit_of(mask, (b % 8) as u32) {
                    on
                } else {
                    pre.spec_bit(a, b)
                }) by {
                    pre.lemma_index_in_range(a, b);
                    let j = byte_index(w, a, b);
                    lemma_byte_index_parts(w, a, b / 8);
                    lemma_byte_index_parts(w, c as int, page as int);
                    if j == idx {
                        assert(a == c && b / 8 == page);
                        lemma_apply_mask_bits(bv, mask, on, (b % 8) as u32);
                    } else {
                        assert(self.bytes[j] == mid.bytes[j]);
                        assert(!(a == c && b / 8 == page));
                    }
                }
            }
            c = c + 1;
        }
    }

    /// Overwrite whole bytes across columns `x0..x1` of one page: every pixel
    /// of the page in those columns becomes `on`, all other pixels keep their
    /// value.
    #[verifier::loop_isolation(false)]
    pub fn fill_page_solid(&mut self, page: u32, x0: u32, x1: u32, on: bool)
        requires
            old(self).wf(),
            page < old(self).spec_pages(),
            x0 <= x1 <= old(self).width,
        ensures
            final(self).wf(),
            final(self).width == old(self).width,
            final(self).height == old(self).height,
            forall|a: int, b: int|
                old(self).in_bounds(a, b) ==> final(self).spec_bit(a, b) == (if x0 <= a < x1 && b
                    / 8 == page {
                    on
                } else {
                    old(self).spec_bit(a, b)
                }),
    {
        let ghost pre = *self;
        let ghost w = self.width as int;
        proof {
            lemma_mul_inequality(page as int + 1, pre.spec_pages(), w);
            lemma_mul_is_distributive_add_other_way(w, page as int, 1);
            lemma_mul_is_commutative(w, pre.spec_pages());
            lemma_mul_is_commutative(w, page as int);
            assert(page as int * w + w <= pre.bytes.len());
        }
        let base = (page as usize) * (self.width as usize);
        let fill: u8 = if on {
            0xFF
        } else {
            0x00
        };
        let mut c = x0;
        while c < x1
            invariant
                self.wf(),
                self.width == pre.width,
                self.height == pre.height,
                x0 <= c <= x1,
                forall|a: int, b: int|
                    pre.in_bounds(a, b) ==> self.spec_bit(a, b) == (if x0 <= a < c && b / 8
                        == page {
                        on
                    } else {
                        pre.spec_bit(a, b)
                    }),
            decreases x1 - c,
        {
            let ghost mid = *self;
            proof {
                lemma_fundamental_div_mod_converse(8 * (page as int), 8, page as int, 0);
                assert(byte_index(w, c as int, 8 * (page as int)) == page * w + c);
            }
            let idx = base + c as usize;
            self.bytes.set(idx, fill);
            proof {
                assert forall|a: int, b: int| pre.in_bounds(a, b) implies self.spec_bit(a, b) == (
                if x0 <= a < c + 1 && b / 8 == page {
                    on
                } else {
                    pre.spec_bit(a, b)
                }) by {
                    pre.lemma_index_in_range(a, b);
                    let j = byte_index(w, a, b);
                    lemma_byte_index_parts(w, a, b / 8);
                    lemma_byte_index_parts(w, c as int, page as int);
                    if j == idx {
                        assert(a == c && b / 8 == page);
                        lemma_fill_byte_bits(on, (b % 8) as u32);
                    } else {
                        assert(self.bytes[j] == mid.bytes[j]);
                        assert(!(a == c && b / 8 == page));
                    }
                }
            }
            c = c + 1;
        }
    }

    /// The plane's bytes after every pixel of the rectangle
    /// `x0 <= x < x1, y0 <= y < y1` is set to `on`: each byte of an affected
    /// column takes the rows of its page that the rectangle covers.
    pub open spec fn spec_filled(self, x0: int, y0: int, x1: int, y1: int, on: bool) -> Seq<u8> {
        let w = self.width as int;
        Seq::new(
            self.bytes@.len(),
            |i: int|
                if x0 <= i % w < x1 {
                    apply_mask_spec(self.bytes[i], page_mask(y0, y1, i / w), on)
                } else {
                    self.bytes[i]
                },
        )
    }

    /// Fill the clipped physical rectangle `x0 <= x < x1, y0 <= y < y1` with
    /// `on`, splitting the vertical span into an unaligned top band, whole
    /// aligned pages, and an unaligned bottom band, so that every byte is
    /// written exactly once.
    #[verifier::loop_isolation(false)]
    pub fn fill_rect_banded(&mut self, x0: u32, y0: u32, x1: u32, y1: u32, on: bool)
        requires
            old(self).wf(),
            x0 <= x1 <= old(self).width,
            y0 <= y1 <= old(self).height,
        ensures
            final(self).wf(),
            final(self).width == old(self).width,
            final(self).height == old(self).height,
            final(self).bytes@ == old(self).spec_filled(
                x0 as int,
                y0 as int,
                x1 as int,
                y1 as int,
                on,
            ),
            forall|a: int, b: int|
                old(self).in_bounds(a, b) ==> final(self).spec_bit(a, b) == (if x0 <= a < x1 && y0
                    <= b < y1 {
                    on
                } else {
                    old(self).spec_bit(a, b)
                }),
    {
        let ghost pre = *self;
        if x0 < x1 && y0 < y1 {
            let mut y = y0;
            if y % 8 != 0 {
                let sh: u32 = y % 8;
                let rem: u32 = 8 - sh;
                let band: u32 = if y1 - y < rem {
                    y1 - y
                } else {
                    rem
                };
                proof {
                    assert(band <= 7 ==> (1u8 << band) >= 1) by (bit_vector);
                }
                let mask: u8 = ((1u8 << band) - 1) << sh;
                self.apply_mask_to_page(y / 8, x0, x1, mask, on);
                proof {
                    assert(1 <= band && band <= 8 - sh && sh < 8 ==> ((((1u8 << band) - 1) as u8)
                        << sh) == mask_range(sh, (sh + band) as u32)) by (bit_vector);
                    assert forall|a: int, b: int| pre.in_bounds(a, b) implies self.spec_bit(a, b)
                        == (if x0 <= a < x1 && y0 <= b < y0 + band {
                        on
                    } else {
                        pre.spec_bit(a, b)
                    }) by {
                        let k = (b % 8) as u32;
                        lemma_mask_range_bits(sh, (sh + band) as u32, k);
                        lemma_fundamental_div_mod(b, 8);
                        lemma_fundamental_div_mod(y0 as int, 8);
                    }
                }
                y = y + band;
            }
            while y + 8 <= y1
                invariant
                    self.wf(),
                    self.width == pre.width,
                    self.height == pre.height,
                    y0 <= y <= y1,
                    y % 8 == 0 || y == y1,
                    forall|a: int, b: int|
                        pre.in_bounds(a, b) ==> self.spec_bit(a, b) == (if x0 <= a < x1 && y0 <= b
                            < y {
                            on
                        } else {
                            pre.spec_bit(a, b)
                        }),
                decreases y1 - y,
            {
                self.fill_page_solid(y / 8, x0, x1, on);
                proof {
                    assert forall|a: int, b: int| pre.in_bounds(a, b) implies self.spec_bit(a, b)
                        == (if x0 <= a < x1 && y0 <= b < y + 8 {
                        on
                    } else {
                        pre.spec_bit(a, b)
                    }) by {
                        lemma_fundamental_div_mod(b, 8);
                        lemma_fundamental_div_mod(y as int, 8);
                    }
                }
                y = y + 8;
            }
            if y < y1 {
                let d: u32 = y1 - y;
                proof {
                    assert(d <= 7 ==> (1u8 << d) >= 1) by (bit_vector);
                }
                let mask: u8 = (1u8 << d) - 1;
                self.apply_mask_to_page(y / 8, x0, x1, mask, on);
                proof {
                    assert(1 <= d && d < 8 ==> (1u8 << d) - 1 == mask_range(0, d)) by (bit_vector);
                    assert forall|a: int, b: int| pre.in_bounds(a, b) implies self.spec_bit(a, b)
                        == (if x0 <= a < x1 && y0 <= b < y1 {
                        on
                    } else {
                        pre.spec_bit(a, b)
                    }) by {
                        let k = (b % 8) as u32;
                        lemma_mask_range_bits(0, d, k);
                        lemma_fundamental_div_mod(b, 8);
                        lemma_fundamental_div_mod(y as int, 8);
                    }
                }
            }
        }
        proof {
            pre.lemma_filled_bits(x0 as int, y0 as int, x1 as int, y1 as int, on);
            let ghost w = pre.width as int;
            let ghost h = pre.height as int;
            let ghost target = pre.spec_filled(x0 as int, y0 as int, x1 as int, y1 as int, on);
            assert forall|a: int, b: int| 0 <= a < w && 0 <= b < h implies seq_bit(
                self.bytes@,
                w,
                a,
                b,
            ) == seq_bit(target, w, a, b) by {
                assert(pre.in_bounds(a, b));
                assert(self.spec_bit(a, b) == seq_bit(self.bytes@, w, a, b));
            }
            lemma_bits_determine_seq(
                pre.width as int,
                pre.height as int,
                self.bytes@,
                pre.spec_filled(x0 as int, y0 as int, x1 as int, y1 as int, on),
            );
        }
    }

    /// Fill the same rectangle as [`Self::fill_rect_banded`], one pixel at a
    /// time. This is the degenerate fallback path; it leaves the plane
    /// byte-identical to the banded fill.
    #[verifier::loop_isolation(false)]
    pub fn fill_rect_pixels(&mut self, x0: u32, y0: u32, x1: u32, y1: u32, on: bool)
        requires
            old(self).wf(),
            x0 <= x1 <= old(self).width,
            y0 <= y1 <= old(self).height,
        ensures
            final(self).wf(),
            final(self).width == old(self).width,
            final(self).height == old(self).height,
            final(self).bytes@ == old(self).spec_filled(
                x0 as int,
                y0 as int,
                x1 as int,
                y1 as int,
                on,
            ),
            forall|a: int, b: int|
                old(self).in_bounds(a, b) ==> final(self).spec_bit(a, b) == (if x0 <= a < x1 && y0
                    <= b < y1 {
                    on
                } else {
                    old(self).spec_bit(a, b)
                }),
    {
        let ghost pre = *self;
        let mut x = x0;
        while x < x1
            invariant
                self.wf(),
                self.width == pre.width,
                self.height == pre.height,
                x0 <= x <= x1,
                forall|a: int, b: int|
                    pre.in_bounds(a, b) ==> self.spec_bit(a, b) == (if x0 <= a < x && y0 <= b < y1 {
                        on
                    } else {
                        pre.spec_bit(a, b)
                    }),
            decreases x1 - x,
        {
            let mut y = y0;
            while y < y1
                invariant
                    self.wf(),
                    self.width == pre.width,
                    self.height == pre.height,
                    x0 <= x < x1,
                    y0 <= y <= y1,
                    forall|a: int, b: int|
                        pre.in_bounds(a, b) ==> self.spec_bit(a, b) == (if (x0 <= a < x && y0 <= b
                            < y1) || (a == x && y0 <= b < y) {
                            on
                        } else {
                            pre.spec_bit(a, b)
                        }),
                decreases y1 - y,
            {
                let ghost mid = *self;
                self.set_bit(x, y, on);
                proof {
                    mid.lemma_with_bit_bits(*self, x as int, y as int, on);
                }
                y = y + 1;
            }
            x = x + 1;
        }
        proof {
            pre.lemma_filled_bits(x0 as int, y0 as int, x1 as int, y1 as int, on);
            let ghost w = pre.width as int;
            let ghost h = pre.height as int;
            let ghost target = pre.spec_filled(x0 as int, y0 as int, x1 as int, y1 as int, on);
            assert forall|a: int, b: int| 0 <= a < w && 0 <= b < h implies seq_bit(
                self.bytes@,
                w,
                a,
                b,
            ) == seq_bit(target, w, a, b) by {
                assert(pre.in_bounds(a, b));
                assert(self.spec_bit(a, b) == seq_bit(self.bytes@, w, a, b));
            }
            lemma_bits_determine_seq(
                pre.width as int,
                pre.height as int,
                self.bytes@,
                pre.spec_filled(x0 as int, y0 as int, x1 as int, y1 as int, on),
            );
        }
    }

    /// How `spec_filled` reads back, pixel by pixel: inside the rectangle the
    /// pixel is `on`, outside it is unchanged.
    pub proof fn lemma_filled_bits(self, x0: int, y0: int, x1: int, y1: int, on: bool)
        requires
            self.wf(),
        ensures
            forall|a: int, b: int|
                self.in_bounds(a, b) ==> seq_bit(
                    self.spec_filled(x0, y0, x1, y1, on),
                    self.width as int,
                    a,
                    b,
                ) == (if x0 <= a < x1 && y0 <= b < y1 {
                    on
                } else {
                    self.spec_bit(a, b)
                }),
    {
        let w = self.width as int;
        let s = self.spec_filled(x0, y0, x1, y1, on);
        assert forall|a: int, b: int| self.in_bounds(a, b) implies seq_bit(s, w, a, b) == (if x0
            <= a < x1 && y0 <= b < y1 {
            on
        } else {
            self.spec_bit(a, b)
        }) by {
            self.lemma_index_in_range(a, b);
            let j = byte_index(w, a, b);
            lemma_byte_index_parts(w, a, b / 8);
            let k = (b % 8) as u32;
            if x0 <= a < x1 {
                lemma_apply_mask_bits(self.bytes[j], page_mask(y0, y1, b / 8), on, k);
                lemma_page_mask_bits(y0, y1, b / 8, k);
                lemma_fundamental_div_mod(b, 8);
            }
        }
    }
}

/// Two well-formed planes of the same dimensions whose pixels all agree hold
/// byte-identical buffers.
pub proof fn lemma_bits_determine_plane(a: Plane, b: Plane)
    requires
        a.wf(),
        b.wf(),
        a.width == b.width,
        a.height == b.height,
        forall|x: int, y: int| a.in_bounds(x, y) ==> a.spec_bit(x, y) == b.spec_bit(x, y),
    ensures
        a.bytes@ == b.bytes@,
{
    let w = a.width as int;
    let h = a.height as int;
    assert forall|x: int, y: int| 0 <= x < w && 0 <= y < h implies seq_bit(a.bytes@, w, x, y)
        == seq_bit(b.bytes@, w, x, y) by {
        assert(a.spec_bit(x, y) == b.spec_bit(x, y));
    }
    lemma_bits_determine_seq(w, h, a.bytes@, b.bytes@);
}

/// Any two writes that satisfy the rectangle-fill pixel contract against the
/// same starting plane end in byte-identical buffers: a banded fill and a
/// per-pixel fill of the same rectangle cannot differ in a single byte.
pub proof fn lemma_fill_result_unique(
    pre: Plane,
    a: Plane,
    b: Plane,
    x0: int,
    y0: int,
    x1: int,
    y1: int,
    on: bool,
)
    requires
        pre.wf(),
        a.wf(),
        b.wf(),
        a.width == pre.width,
        a.height == pre.height,
        b.width == pre.width,
        b.height == pre.height,
        forall|x: int, y: int|
            pre.in_bounds(x, y) ==> a.spec_bit(x, y) == (if x0 <= x < x1 && y0 <= y < y1 {
                on
            } else {
                pre.spec_bit(x, y)
            }),
        forall|x: int, y: int|
            pre.in_bounds(x, y) ==> b.spec_bit(x, y) == (if x0 <= x < x1 && y0 <= y < y1 {
                on
            } else {
                pre.spec_bit(x, y)
            }),
    ensures
        a.bytes@ == b.bytes@,
{
    lemma_bits_determine_plane(a, b);
}

/// Setting a pixel and then clearing it leaves that pixel at 0 and every
/// other pixel exactly as it started, in whatever order other bits were
/// written around it.
pub proof fn lemma_set_then_clear(p: Plane, q: Plane, r: Plane, x: int, y: int)
    requires
        p.wf(),
        p.in_bounds(x, y),
        q.width == p.width,
        q.height == p.height,
        q.bytes@ == p.spec_with_bit(x, y, true),
        r.width == q.width,
        r.height == q.height,
        r.bytes@ == q.spec_with_bit(x, y, false),
    ensures
        !r.spec_bit(x, y),
        forall|a: int, b: int|
            p.in_bounds(a, b) && !(a == x && b == y) ==> r.spec_bit(a, b) == p.spec_bit(a, b),
{
    p.lemma_with_bit_bits(q, x, y, true);
    q.lemma_with_bit_bits(r, x, y, false);
}

} // verus!
