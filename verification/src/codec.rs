//! Pure conversion between 1-D Hilbert curve indices and 2-D coordinates.
//!
//! The bit-interleaving transform itself is done by the `fast_hilbert`
//! crate; its two conversions are named below and the codec's contracts are
//! stated over those names.

use crate::errors::StoreError;
use vstd::arithmetic::power2::{lemma2_to64, lemma_pow2_pos, pow2};
use vstd::prelude::*;

verus! {

/// The curve index `fast_hilbert::xy2h::<u32>` computes for coordinates
/// `(x, y)` on the Hilbert curve of the given order.
pub uninterp spec fn hilbert_index(order: u8, x: u32, y: u32) -> u64;

/// The coordinate pair `fast_hilbert::h2xy::<u32>` computes for curve index
/// `key` on the Hilbert curve of the given order.
pub uninterp spec fn hilbert_point(order: u8, key: u64) -> (u32, u32);

/// Relies on `fast_hilbert::xy2h::<u32>`: the 2-D-to-1-D Hilbert
/// conversion. The crate documents the pair `xy2h`/`h2xy` as converting
/// between the two spaces and back, and its tests drive the round trip, so
/// for coordinates within the curve's order the returned index decodes back
/// to the coordinates. The function is total: no input panics.
#[verifier::external_body]
fn xy2h_u32(x: u32, y: u32, order: u8) -> (h: u64)
    ensures
        h == hilbert_index(order, x, y),
        ((x as nat) < pow2(order as nat) && (y as nat) < pow2(order as nat)) ==> hilbert_point(
            order,
            h,
        ) == (x, y),
{
    fast_hilbert::xy2h::<u32>(x, y, order)
}

/// Relies on `fast_hilbert::h2xy::<u32>`: the 1-D-to-2-D Hilbert
/// conversion, the reverse of `xy2h`; a curve index within the order's
/// range encodes back to itself. The function is total: no input panics.
#[verifier::external_body]
fn h2xy_u32(h: u64, order: u8) -> (p: (u32, u32))
    ensures
        p == hilbert_point(order, h),
        (h as nat) < pow2(2 * (order as nat)) ==> hilbert_index(order, p.0, p.1) == h,
{
    fast_hilbert::h2xy::<u32>(h, order)
}

/// Largest curve order the codec accepts: the full width of a coordinate.
pub const MAX_ORDER: u8 = 32;

/// Stateless converter between 1-D Hilbert curve indices and 2-D
/// coordinates, for a curve of a configured order (bits per axis).
#[derive(Clone, Copy, Debug)]
pub struct HilbertCodec {
    order: u8,
}

impl HilbertCodec {
    /// The configured order: how many bits of each coordinate the curve
    /// covers.
    pub closed spec fn spec_order(self) -> u8 {
        self.order
    }

    pub open spec fn wf(self) -> bool {
        1 <= self.spec_order() <= MAX_ORDER
    }

    /// Whether `(x, y)` lies within the configured bit-width.
    pub open spec fn in_domain(self, x: u32, y: u32) -> bool {
        (x as nat) < pow2(self.spec_order() as nat) && (y as nat) < pow2(
            self.spec_order() as nat,
        )
    }

    /// A codec for a curve of `order` bits per axis.
    pub fn new(order: u8) -> (r: Result<HilbertCodec, StoreError>)
        ensures
            1 <= order <= MAX_ORDER ==> (r matches Ok(c) && c.wf() && c.spec_order() == order),
            !(1 <= order <= MAX_ORDER) ==> (r matches Err(e) && e == StoreError::Encoding),
    {
        if 1 <= order && order <= MAX_ORDER {
            Ok(HilbertCodec { order })
        } else {
            Err(StoreError::Encoding)
        }
    }

    /// The codec covering the full coordinate width: every `u32` pair is in
    /// its domain.
    pub fn full_width() -> (c: HilbertCodec)
        ensures
            c.wf(),
            c.spec_order() == MAX_ORDER,
            forall|x: u32, y: u32| c.in_domain(x, y),
    {
        proof {
            lemma2_to64();
        }
        HilbertCodec { order: 32 }
    }

    /// Maps 2-D coordinates to the 1-D curve index. On the configured
    /// domain this is the exact inverse of `decode`; coordinates beyond the
    /// configured bit-width are flagged to the caller, never truncated.
    pub fn encode(&self, x: u32, y: u32) -> (r: Result<u64, StoreError>)
        requires
            self.wf(),
        ensures
            self.in_domain(x, y) ==> (r matches Ok(k) && k == hilbert_index(
                self.spec_order(),
                x,
                y,
            ) && hilbert_point(self.spec_order(), k) == (x, y)),
            !self.in_domain(x, y) ==> (r matches Err(e) && e == StoreError::Encoding),
    {
        if self.order < 32 {
            proof {
                vstd::bits::lemma_u32_shr_is_div(x, self.order as u32);
                vstd::bits::lemma_u32_shr_is_div(y, self.order as u32);
                lemma_pow2_pos(self.order as nat);
                vstd::arithmetic::div_mod::lemma_fundamental_div_mod(
                    x as int,
                    pow2(self.order as nat) as int,
                );
                vstd::arithmetic::div_mod::lemma_fundamental_div_mod(
                    y as int,
                    pow2(self.order as nat) as int,
                );
                let p = pow2(self.order as nat) as int;
                assert((x as int) / p != 0 ==> (x as int) >= p) by (nonlinear_arith)
                    requires
                        p > 0,
                ;
                assert((y as int) / p != 0 ==> (y as int) >= p) by (nonlinear_arith)
                    requires
                        p > 0,
                ;
            }
            if (x >> (self.order as u32)) != 0 || (y >> (self.order as u32)) != 0 {
                return Err(StoreError::Encoding);
            }
        } else {
            proof {
                lemma2_to64();
            }
        }
        Ok(xy2h_u32(x, y, self.order))
    }

    /// Maps a 1-D curve index to 2-D coordinates; total, no error
    /// conditions. Indices within the curve's range encode back to
    /// themselves.
    pub fn decode(&self, key: u64) -> (p: (u32, u32))
        requires
            self.wf(),
        ensures
            p == hilbert_point(self.spec_order(), key),
            (key as nat) < pow2(2 * (self.spec_order() as nat)) ==> hilbert_index(
                self.spec_order(),
                p.0,
                p.1,
            ) == key,
    {
        h2xy_u32(key, self.order)
    }
}

} // verus!
