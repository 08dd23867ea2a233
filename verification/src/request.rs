//! All-sky request bookkeeping and the handoff of decoded tiles.
//!
//! An [`AllskyRequest`] records the query that fetched an all-sky mosaic;
//! the fetch itself is the host's business.  Once the host has decoded and
//! decomposed the mosaic (with this crate's decoder and [`crate::allsky`]),
//! it fulfills the request, and [`AllskyRequest::resolve`] moves the tiles
//! into an [`Allsky`]: a single-producer, single-consumer cell whose content
//! is present at most once and consumed exactly once, by
//! [`Allsky::take_image`].

use vstd::prelude::*;
use vstd::arithmetic::power2::pow2;
use crate::image::ImageBufferType;

verus! {

/// Base-two logarithm of an exact power of two.
pub fn log2_exact(n: u32) -> (r: u32)
    requires
        1 <= n,
        exists|mm: nat| n as nat == #[trigger] pow2(mm),
    ensures
        pow2(r as nat) == n as nat,
        r < 32,
{
    let mut v: u32 = n;
    let mut r: u32 = 0;
    proof {
        vstd::arithmetic::power2::lemma2_to64();
        assert((v as nat) * pow2(0nat) == n as nat) by (nonlinear_arith)
            requires v == n, pow2(0nat) == 1;
    }
    while v > 1
        invariant
            1 <= v <= n,
            r <= 32,
            (exists|mm: nat| v as nat == #[trigger] pow2(mm)),
            (v as nat) * pow2(r as nat) == n as nat,
        decreases v,
    {
        proof {
            let mm = choose|mm: nat| v as nat == pow2(mm);
            vstd::arithmetic::power2::lemma2_to64();
            assert(mm > 0) by {
                if mm == 0 {
                    assert(pow2(0nat) == 1);
                }
            }
            vstd::arithmetic::power2::lemma_pow2_unfold(mm);
            assert(v as nat / 2 == pow2((mm - 1) as nat) && v % 2 == 0) by {
                assert(v as nat == 2 * pow2((mm - 1) as nat));
            }
            vstd::arithmetic::power2::lemma_pow2_unfold((r + 1) as nat);
            assert((v as nat / 2) * pow2((r + 1) as nat) == n as nat) by (nonlinear_arith)
                requires
                    (v as nat) * pow2(r as nat) == n as nat,
                    v as nat == 2 * (v as nat / 2),
                    pow2((r + 1) as nat) == 2 * pow2(r as nat);
            // r stays far from its bound: pow2(r) divides n < 2^32.
            assert(pow2(r as nat) <= n as nat) by (nonlinear_arith)
                requires (v as nat) * pow2(r as nat) == n as nat, v >= 1;
            assert(r < 32) by {
                if r >= 32 {
                    vstd::arithmetic::power2::lemma_pow2_strictly_increases(32nat, r as nat);
                }
            }
        }
        v = v / 2;
        r = r + 1;
    }
    proof {
        assert(v == 1);
        assert(1 * pow2(r as nat) == pow2(r as nat)) by (nonlinear_arith);
        vstd::arithmetic::power2::lemma2_to64();
        assert(r < 32) by {
            if r >= 32 {
                vstd::arithmetic::power2::lemma_pow2_strictly_increases(32nat, r as nat);
                assert(pow2(r as nat) >= pow2(32nat));
            }
        }
    }
    r
}

/// A pending all-sky query: where it came from, the subdivision depth its
/// texture set implies, and the cell where the host deposits the decomposed
/// tiles when the fetch resolves.
pub struct AllskyRequest {
    /// Base URL of the survey.
    pub hips_url: String,
    /// URL of the all-sky mosaic itself.
    pub url: String,
    /// Tile depth covered by one texture: `log2(texture_size / tile_size)`.
    pub depth_tile: u8,
    /// Identifier of the query this request answers.
    pub id: u64,
    /// The decomposed tiles, once the host has produced them.
    pub data: Option<Vec<ImageBufferType>>,
}

impl AllskyRequest {
    /// Opens a request for an all-sky mosaic serving tiles of side
    /// `tile_size` packed into textures of side `texture_size`.
    pub fn new(hips_url: String, url: String, tile_size: i32, texture_size: i32, id: u64)
        -> (r: AllskyRequest)
        requires
            1 <= tile_size <= texture_size,
            texture_size % tile_size == 0,
            texture_size == tile_size * (texture_size as int / tile_size as int),
            exists|mm: nat| (texture_size as int / tile_size as int)
                == #[trigger] pow2(mm),
        ensures
            r.hips_url == hips_url,
            r.url == url,
            r.id == id,
            r.data is None,
            pow2(r.depth_tile as nat) == texture_size as int / tile_size as int,
    {
        let ratio = texture_size / tile_size;
        proof {
            assert(ratio >= 1) by (nonlinear_arith)
                requires
                    1 <= tile_size <= texture_size,
                    texture_size == tile_size * ratio;
        }
        let depth_tile = log2_exact(ratio as u32);
        AllskyRequest {
            hips_url,
            url,
            depth_tile: depth_tile as u8,
            id,
            data: None,
        }
    }

    /// The fetch has produced tiles.
    pub fn is_resolved(&self) -> (r: bool)
        ensures
            r == (self.data is Some),
    {
        self.data.is_some()
    }

    /// Deposits the decomposed tiles of the fetched mosaic.
    pub fn fulfill(&mut self, tiles: Vec<ImageBufferType>)
        ensures
            final(self).data == Some(tiles),
            final(self).hips_url == old(self).hips_url,
            final(self).url == old(self).url,
            final(self).depth_tile == old(self).depth_tile,
            final(self).id == old(self).id,
    {
        self.data = Some(tiles);
    }

    /// Moves a resolved request's tiles into an [`Allsky`]; an unresolved
    /// request is handed back untouched.
    pub fn resolve(self) -> (r: Result<Allsky, AllskyRequest>)
        ensures
            self.data is Some <==> r is Ok,
            r matches Ok(a) ==> {
                &&& a.image == self.data
                &&& a.hips_url == self.hips_url
                &&& a.url == self.url
                &&& a.depth_tile == self.depth_tile
            },
            r matches Err(q) ==> q == self,
    {
        if self.data.is_some() {
            let AllskyRequest { hips_url, url, depth_tile, id: _, data } = self;
            Ok(Allsky { image: data, depth_tile, hips_url, url })
        } else {
            Err(self)
        }
    }
}

/// The delivered all-sky tiles: an exclusive-or-empty cell, filled once by
/// the resolving request and emptied once by the consumer.
pub struct Allsky {
    /// The decomposed tiles, until they are taken.
    pub image: Option<Vec<ImageBufferType>>,
    /// Tile depth covered by one texture.
    pub depth_tile: u8,
    /// Base URL of the survey.
    pub hips_url: String,
    /// URL of the all-sky mosaic.
    pub url: String,
}

impl Allsky {
    /// The cell is empty: its tiles were already consumed.
    pub fn missing(&self) -> (r: bool)
        ensures
            r == (self.image is None),
    {
        self.image.is_none()
    }

    /// The survey this all-sky belongs to.
    pub fn get_hips_url(&self) -> (r: &String)
        ensures
            r == &self.hips_url,
    {
        &self.hips_url
    }

    /// The URL the mosaic was fetched from.
    pub fn get_url(&self) -> (r: &String)
        ensures
            r == &self.url,
    {
        &self.url
    }

    /// Consumes the tiles: present at most once, taken at most once.
    pub fn take_image(&mut self) -> (r: Option<Vec<ImageBufferType>>)
        ensures
            r == old(self).image,
            final(self).image is None,
            final(self).depth_tile == old(self).depth_tile,
            final(self).hips_url == old(self).hips_url,
            final(self).url == old(self).url,
    {
        self.image.take()
    }
}

} // verus!
