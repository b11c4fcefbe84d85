//! The size catalog: every edge length the packers may ask for, each with
//! the source square resampled to that size.

use crate::codec::resample;
use crate::error::IconError;
use crate::pixel::PixelImage;
use std::collections::HashMap;
use vstd::prelude::*;

verus! {

broadcast use vstd::std_specs::hash::group_hash_axioms;

/// Number of edge lengths in the catalog.
pub const CATALOG_LEN: usize = 19;

/// The edge lengths that are resampled for every build, in build order.
pub const CATALOG_SIZES: [u32; 19] = [
    512,
    256,
    128,
    96,
    64,
    48,
    32,
    24,
    16,
    310,
    284,
    150,
    142,
    107,
    89,
    71,
    44,
    30,
    50,
];

/// The catalog's edge lengths as a sequence.
pub open spec fn catalog_sizes() -> Seq<u32> {
    seq![
        512u32,
        256u32,
        128u32,
        96u32,
        64u32,
        48u32,
        32u32,
        24u32,
        16u32,
        310u32,
        284u32,
        150u32,
        142u32,
        107u32,
        89u32,
        71u32,
        44u32,
        30u32,
        50u32,
    ]
}

/// Maps an edge length to the square image of exactly that size.
pub struct SizeCatalog {
    images: HashMap<u32, PixelImage>,
}

impl View for SizeCatalog {
    type V = Map<u32, PixelImage>;

    closed spec fn view(&self) -> Map<u32, PixelImage> {
        self.images@
    }
}

/// Every entry of `m` is a well-formed square whose edge is its own key.
pub open spec fn entries_match_keys(m: Map<u32, PixelImage>) -> bool {
    forall|s: u32| #[trigger] m.contains_key(s) ==> s > 0 && m[s].is_square_of(s as int)
}

impl SizeCatalog {
    /// Every entry is a well-formed square whose edge is its own key. This
    /// holds of every catalog that exists.
    #[verifier::type_invariant]
    pub open spec fn wf(&self) -> bool {
        entries_match_keys(self@)
    }

    /// A catalog without entries.
    pub fn new() -> (r: SizeCatalog)
        ensures
            r.wf(),
            r@ == Map::<u32, PixelImage>::empty(),
    {
        SizeCatalog { images: HashMap::new() }
    }

    /// Stores `image` under `edge`, replacing what was there, provided that
    /// `edge` is positive and `image` is a well-formed square of that edge.
    /// Anything else is refused and leaves the catalog as it was.
    pub fn insert(&mut self, edge: u32, image: PixelImage) -> (stored: bool)
        ensures
            final(self).wf(),
            stored == (edge > 0 && image.is_square_of(edge as int)),
            final(self)@ == if stored {
                old(self)@.insert(edge, image)
            } else {
                old(self)@
            },
    {
        proof {
            use_type_invariant(&*self);
        }
        if edge == 0 || !image.is_square(edge) {
            return false;
        }
        let mut images: HashMap<u32, PixelImage> = HashMap::new();
        std::mem::swap(&mut self.images, &mut images);
        images.insert(edge, image);
        self.images = images;
        true
    }

    /// The image stored under `edge`, if there is one: a well-formed square
    /// of that edge.
    pub fn get(&self, edge: u32) -> (r: Option<&PixelImage>)
        ensures
            self.wf(),
            r is Some <==> self@.contains_key(edge),
            r is Some ==> *r->0 == self@[edge] && edge > 0 && r->0.is_square_of(edge as int),
    {
        proof {
            use_type_invariant(self);
        }
        self.images.get(&edge)
    }

    /// Whether an image is stored under `edge`.
    pub fn contains(&self, edge: u32) -> (r: bool)
        ensures
            r == self@.contains_key(edge),
    {
        self.images.contains_key(&edge)
    }

    /// Number of entries.
    pub fn len(&self) -> (r: usize)
        ensures
            r == self@.len(),
    {
        self.images.len()
    }
}

/// `m` is a catalog of the square of edge `edge` with the bytes `pixels`:
/// it has an entry for every catalog size and no other, every entry is a
/// square of its own key's size, and the entry of the source's own size, if
/// there is one, is the source itself.
pub open spec fn is_catalog_of(m: Map<u32, PixelImage>, edge: u32, pixels: Seq<u8>) -> bool {
    &&& entries_match_keys(m)
    &&& m.dom() == catalog_sizes().to_set()
    &&& m.contains_key(edge) ==> m[edge].pixels@ == pixels
}

/// Resamples `square` to every edge length of the catalog.
///
/// All sizes are computed eagerly. A size larger than the source is
/// upsampled with the same filter, and the entry whose edge equals the
/// source's is a copy of the source.
pub fn build_catalog(square: &PixelImage) -> (r: SizeCatalog)
    requires
        square.wf(),
        square.width == square.height,
        square.width > 0,
    ensures
        r.wf(),
        is_catalog_of(r@, square.width, square.pixels@),
        forall|i: int|
            0 <= i < catalog_sizes().len() ==> {
                &&& r@.contains_key(#[trigger] catalog_sizes()[i])
                &&& r@[catalog_sizes()[i]].pixels@.len() == catalog_sizes()[i] * catalog_sizes()[i]
                    * 4
            },
{
    // Reading the length is what tells that `width * width * 4` fits a machine word.
    let total: usize = square.pixels.len();
    let mut catalog = SizeCatalog::new();
    let mut i: usize = 0;
    while i < CATALOG_LEN
        invariant
            0 <= i <= CATALOG_LEN,
            square.wf(),
            square.width == square.height,
            square.width > 0,
            total == square.pixels@.len(),
            CATALOG_SIZES@ == catalog_sizes(),
            catalog.wf(),
            catalog@.dom() == catalog_sizes().take(i as int).to_set(),
            catalog@.contains_key(square.width) ==> catalog@[square.width].pixels@
                == square.pixels@,
        decreases CATALOG_LEN - i,
    {
        let edge: u32 = CATALOG_SIZES[i];
        proof {
            assert(edge == catalog_sizes()[i as int]);
            assert(0 < edge <= 512);
            let w = square.width as int;
            let e = edge as int;
            assert(4 * w * e <= usize::MAX) by (nonlinear_arith)
                requires
                    0 < w,
                    0 < e <= 512,
                    w * w * 4 <= usize::MAX,
                    usize::MAX >= 0xffff_ffff,
            ;
            assert(4 * e * e <= usize::MAX) by (nonlinear_arith)
                requires
                    0 < e <= 512,
                    usize::MAX >= 0xffff_ffff,
            ;
        }
        let image = resample(square, edge);
        let stored = catalog.insert(edge, image);
        assert(stored);
        proof {
            let before = catalog_sizes().take(i as int);
            let after = catalog_sizes().take(i + 1);
            assert(after == before.push(edge));
            assert(after.to_set() =~= before.to_set().insert(edge)) by {
                assert forall|s: u32| after.to_set().contains(s) implies before.to_set().insert(
                    edge,
                ).contains(s) by {
                    let j = choose|j: int| 0 <= j < after.len() && after[j] == s;
                    if j < i {
                        assert(before[j] == s);
                    }
                }
                assert forall|s: u32| before.to_set().insert(edge).contains(
                    s,
                ) implies after.to_set().contains(s) by {
                    if s == edge {
                        assert(after[i as int] == s);
                    } else {
                        let j = choose|j: int| 0 <= j < before.len() && before[j] == s;
                        assert(after[j] == s);
                    }
                }
            }
        }
        i = i + 1;
    }
    proof {
        assert(catalog_sizes().take(CATALOG_LEN as int) == catalog_sizes());
        assert forall|i: int| 0 <= i < catalog_sizes().len() implies {
            &&& catalog@.contains_key(#[trigger] catalog_sizes()[i])
            &&& catalog@[catalog_sizes()[i]].pixels@.len() == catalog_sizes()[i]
                * catalog_sizes()[i] * 4
        } by {
            assert(catalog_sizes().to_set().contains(catalog_sizes()[i]));
        }
    }
    catalog
}

/// The first edge length of `sizes` that `m` has no entry for.
pub open spec fn first_missing(m: Map<u32, PixelImage>, sizes: Seq<u32>) -> Option<u32>
    decreases sizes.len(),
{
    if sizes.len() == 0 {
        None
    } else if !m.contains_key(sizes[0]) {
        Some(sizes[0])
    } else {
        first_missing(m, sizes.drop_first())
    }
}

/// `first_missing` finds nothing exactly when every size has an entry, and
/// what it finds is the earliest size without one.
pub proof fn lemma_first_missing(m: Map<u32, PixelImage>, sizes: Seq<u32>)
    ensures
        first_missing(m, sizes) is None <==> forall|i: int|
            0 <= i < sizes.len() ==> m.contains_key(#[trigger] sizes[i]),
        first_missing(m, sizes) is Some ==> exists|i: int|
            0 <= i < sizes.len() && #[trigger] sizes[i] == first_missing(m, sizes)->0
                && !m.contains_key(sizes[i]) && forall|j: int|
                0 <= j < i ==> m.contains_key(#[trigger] sizes[j]),
    decreases sizes.len(),
{
    if sizes.len() == 0 {
    } else if !m.contains_key(sizes[0]) {
        assert(sizes[0] == first_missing(m, sizes)->0);
    } else {
        let rest = sizes.drop_first();
        lemma_first_missing(m, rest);
        assert forall|i: int| 0 <= i < rest.len() implies rest[i] == sizes[i + 1] by {}
        if first_missing(m, rest) is None {
            assert forall|i: int| 0 <= i < sizes.len() implies m.contains_key(
                #[trigger] sizes[i],
            ) by {
                if i > 0 {
                    assert(rest[i - 1] == sizes[i]);
                }
            }
        } else {
            let k = choose|i: int|
                0 <= i < rest.len() && #[trigger] rest[i] == first_missing(m, rest)->0
                    && !m.contains_key(rest[i]) && forall|j: int|
                    0 <= j < i ==> m.contains_key(#[trigger] rest[j]);
            assert(sizes[k + 1] == rest[k]);
            assert forall|j: int| 0 <= j < k + 1 implies m.contains_key(#[trigger] sizes[j]) by {
                if j > 0 {
                    assert(rest[j - 1] == sizes[j]);
                }
            }
        }
    }
}

/// Looks up every edge length of `sizes`, in order.
///
/// Fails with `MissingSize` for the first edge length that the catalog has
/// no entry for.
pub fn select_sizes<'a>(catalog: &'a SizeCatalog, sizes: &[u32]) -> (r: Result<
    Vec<&'a PixelImage>,
    IconError,
>)
    ensures
        match first_missing(catalog@, sizes@) {
            Some(s) => r == Err::<Vec<&PixelImage>, IconError>(IconError::MissingSize(s)),
            None => r is Ok && r->Ok_0@.len() == sizes@.len() && forall|i: int|
                0 <= i < sizes@.len() ==> *(#[trigger] r->Ok_0@[i]) == catalog@[sizes@[i]],
        },
{
    let mut found: Vec<&PixelImage> = Vec::new();
    let mut i: usize = 0;
    proof {
        assert(sizes@.skip(0) == sizes@);
    }
    while i < sizes.len()
        invariant
            0 <= i <= sizes@.len(),
            found@.len() == i,
            forall|j: int| 0 <= j < i ==> *(#[trigger] found@[j]) == catalog@[sizes@[j]],
            first_missing(catalog@, sizes@) == first_missing(catalog@, sizes@.skip(i as int)),
        decreases sizes@.len() - i,
    {
        let ghost rest = sizes@.skip(i as int);
        proof {
            assert(rest[0] == sizes@[i as int]);
            assert(rest.drop_first() == sizes@.skip(i + 1));
        }
        match catalog.get(sizes[i]) {
            None => {
                return Err(IconError::MissingSize(sizes[i]));
            },
            Some(image) => {
                found.push(image);
            },
        }
        i = i + 1;
    }
    proof {
        assert(sizes@.skip(i as int).len() == 0);
    }
    Ok(found)
}

} // verus!
