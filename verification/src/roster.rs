//! The roster of player types that the user edits: for each type number an
//! image and a number of players to spawn, and how many types there are.

use vstd::prelude::*;
use std::collections::HashMap;
use crate::layers::{Layers, type_layers};
use crate::components::ReadImage;
use rand::seq::SliceRandom;
use vstd::std_specs::iter::IteratorSpec;

verus! {

broadcast use vstd::std_specs::hash::group_hash_axioms;

/// Most types the roster can hold.
pub const MAX_TYPES: i32 = 30;

/// Players spawned for a type that has just been added.
pub const DEFAULT_COUNT: i32 = 35;

/// The image of a player type.
#[derive(Debug, Clone, Copy, PartialEq, Eq, Hash)]
pub enum ImageRef {
    Rock,
    Paper,
    Scissors,
    /// An image that the user loaded, by the number the game gave it.
    Uploaded(u64),
}

/// The built-in images in the order `[rock, paper, scissors]`.
pub open spec fn builtin_image(i: int) -> ImageRef {
    if i == 0 {
        ImageRef::Rock
    } else if i == 1 {
        ImageRef::Paper
    } else {
        ImageRef::Scissors
    }
}

/// The roster: images and player counts by type number, and the number of
/// types, which are `1..=len`.
#[derive(Debug)]
pub struct CustomInfo {
    pub image_hash: HashMap<i32, ImageRef>,
    pub nums: HashMap<i32, i32>,
    pub len: i32,
}

/// Absolute value on integers.
pub open spec fn abs(x: int) -> int {
    if x < 0 {
        -x
    } else {
        x
    }
}

/// The roster that the game starts from and returns to on reset: rock,
/// paper and scissors, 35 players each.
pub open spec fn default_images() -> Map<i32, ImageRef> {
    map![1i32 => ImageRef::Rock, 2i32 => ImageRef::Paper, 3i32 => ImageRef::Scissors]
}

/// Player counts of the default roster.
pub open spec fn default_nums() -> Map<i32, i32> {
    map![1i32 => 35i32, 2i32 => 35i32, 3i32 => 35i32]
}

/// A group of players to spawn: all of one type.
#[derive(Debug, Clone, Copy, PartialEq, Eq)]
pub struct SpawnGroup {
    pub type_id: i32,
    pub image: ImageRef,
    pub count: i32,
    pub layers: Layers,
}

/// The group spawned for type `t`.
pub open spec fn group_for(images: Map<i32, ImageRef>, nums: Map<i32, i32>, t: int) -> SpawnGroup {
    SpawnGroup {
        type_id: t as i32,
        image: images[t as i32],
        count: abs(nums[t as i32] as int) as i32,
        layers: Layers {
            memberships: 1u32 << (t as u32),
            filters: !(1u32 << (t as u32)),
        },
    }
}

/// The groups spawned for types `1..=upto`, in that order; a type that lacks
/// an image or a count is skipped.
pub open spec fn planned(images: Map<i32, ImageRef>, nums: Map<i32, i32>, upto: int) -> Seq<
    SpawnGroup,
>
    decreases upto,
{
    if upto <= 0 {
        Seq::empty()
    } else {
        let before = planned(images, nums, upto - 1);
        if images.contains_key(upto as i32) && nums.contains_key(upto as i32) {
            before.push(group_for(images, nums, upto))
        } else {
            before
        }
    }
}

/// No type that would be spawned has the count `i32::MIN`, whose absolute
/// value does not fit an `i32`.
pub open spec fn counts_negatable(images: Map<i32, ImageRef>, nums: Map<i32, i32>, len: int) -> bool {
    forall|t: i32|
        1 <= t <= len && images.contains_key(t) && #[trigger] nums.contains_key(t) ==> nums[t]
            != i32::MIN
}

/// A roster map after type `k` is removed from a roster of `len` types: the
/// entries of the types after `k`, up to `len`, move down by one, and the
/// entry of type `len` stays where it was.
pub open spec fn shifted_down<V>(m: Map<i32, V>, k: int, len: int) -> Map<i32, V> {
    Map::new(
        |j: i32|
            if k + 1 <= len {
                m.contains_key(j) || j == k
            } else {
                m.contains_key(j) && j != k
            },
        |j: i32|
            if k <= j < len {
                m[(j + 1) as i32]
            } else {
                m[j]
            },
    )
}

/// Every type after `k`, up to `len`, has an entry in `m`.
pub open spec fn has_types_after<V>(m: Map<i32, V>, k: int, len: int) -> bool {
    forall|i: i32| k < i <= len ==> #[trigger] m.contains_key(i)
}

/// `new_m` is `old_m` with the entries at `keys` rearranged: the key at
/// position `p` of `keys` gets the entry the key at position `perm[p]` had;
/// all other entries stay.
pub open spec fn shuffled_by<V>(
    old_m: Map<i32, V>,
    new_m: Map<i32, V>,
    keys: Seq<i32>,
    perm: Seq<usize>,
) -> bool {
    &&& new_m.dom() == old_m.dom()
    &&& forall|p: int|
        0 <= p < keys.len() ==> new_m[#[trigger] keys[p]] == old_m[keys[perm[p] as int]]
    &&& forall|j: i32| old_m.contains_key(j) && !keys.contains(j) ==> new_m[j] == old_m[j]
}

/// `perm` rearranges the positions `0..n`.
pub open spec fn is_permutation(perm: Seq<usize>, n: nat) -> bool {
    &&& n <= usize::MAX
    &&& perm.len() == n
    &&& perm.to_multiset() == Seq::new(n, |i: int| i as usize).to_multiset()
}

/// A keys-and-positions pair that a shuffle may use: the keys are those of
/// the image map, each once, and the positions are rearranged.
pub open spec fn shuffle_choice(images: Map<i32, ImageRef>, keys: Seq<i32>, perm: Seq<usize>) -> bool {
    &&& keys.no_duplicates()
    &&& keys.to_set() == images.dom()
    &&& is_permutation(perm, keys.len())
}

/// Rearranges `order` at random with `rand`'s `SliceRandom::shuffle` and the
/// thread-local generator `rand::rng()`. Claimed: the result holds the same
/// items as before. Which arrangement comes out rests on chance and is not
/// stated; `rand::rng()` panics if the system's random source fails at its
/// first seeding, which is not excluded.
#[verifier::external_body]
fn shuffle_order(order: &mut Vec<usize>)
    ensures
        final(order)@.to_multiset() == old(order)@.to_multiset(),
{
    order.shuffle(&mut rand::rng());
}

/// An image decoded to 8-bit RGBA: width, height and the pixel bytes, four
/// per pixel, row by row.
#[derive(Debug)]
pub struct DecodedImage {
    pub width: u32,
    pub height: u32,
    pub pixels: Vec<u8>,
}

/// Whether an image of the given width, height and RGBA bytes is what
/// `image::load_from_memory` and `to_rgba8` made of the bytes of a file. It
/// is a relation, not a function of the bytes: decoding hooks registered in
/// the process take part in it.
pub uninterp spec fn decoded_from(bytes: Seq<u8>, width: u32, height: u32, pixels: Seq<u8>) -> bool;

/// Decodes an image file held in memory with `image::load_from_memory` (the
/// format guessed from the bytes: PNG, JPEG or WebP) and converts it with
/// `DynamicImage::to_rgba8`. Claimed: a decoded image was decoded from these
/// bytes (`decoded_from`) and holds at least four bytes per pixel, as every
/// `ImageBuffer` of RGBA pixels does. Whether the bytes decode, and to what
/// image, is not stated: the crate lets any code in the process register
/// format-detection and decoding hooks that take part.
#[verifier::external_body]
fn decode_rgba(bytes: &[u8]) -> (r: Option<DecodedImage>)
    ensures
        r matches Some(d) ==> decoded_from(bytes@, d.width, d.height, d.pixels@),
        r matches Some(d) ==> d.pixels@.len() >= 4 * d.width * d.height,
{
    match image::load_from_memory(bytes) {
        Ok(img) => {
            let rgba = img.to_rgba8();
            let (width, height) = rgba.dimensions();
            Some(DecodedImage { width, height, pixels: rgba.into_raw() })
        },
        Err(_) => None,
    }
}

/// Every type that would be spawned has a layer bit: no type above 31, the
/// last bit of a 32-bit mask, has both an image and a count.
pub open spec fn layers_fit(images: Map<i32, ImageRef>, nums: Map<i32, i32>, len: int) -> bool {
    forall|t: i32|
        31 < t <= len && #[trigger] images.contains_key(t) ==> !nums.contains_key(t)
}

impl CustomInfo {
    /// An empty roster.
    pub fn new() -> (r: Self)
        ensures
            r.image_hash@ == Map::<i32, ImageRef>::empty(),
            r.nums@ == Map::<i32, i32>::empty(),
            r.len == 0,
    {
        CustomInfo { image_hash: HashMap::new(), nums: HashMap::new(), len: 0 }
    }

    /// Back to the default roster: rock, paper and scissors, 35 each.
    pub fn reset(&mut self)
        ensures
            final(self).image_hash@ == default_images(),
            final(self).nums@ == default_nums(),
            final(self).len == 3,
    {
        self.image_hash.clear();
        self.nums.clear();
        self.image_hash.insert(1, ImageRef::Rock);
        self.nums.insert(1, DEFAULT_COUNT);
        self.image_hash.insert(2, ImageRef::Paper);
        self.nums.insert(2, DEFAULT_COUNT);
        self.image_hash.insert(3, ImageRef::Scissors);
        self.nums.insert(3, DEFAULT_COUNT);
        self.len = 3;
    }

    /// Adds a type after the last one, with the rock image and 35 players,
    /// unless the roster already holds 30 types. Returns whether it did.
    pub fn add_type(&mut self) -> (added: bool)
        requires
            old(self).len < i32::MAX,
        ensures
            added == (old(self).len != MAX_TYPES),
            added ==> final(self).image_hash@ == old(self).image_hash@.insert(
                (old(self).len + 1) as i32,
                ImageRef::Rock,
            ),
            added ==> final(self).nums@ == old(self).nums@.insert((old(self).len + 1) as i32, DEFAULT_COUNT),
            added ==> final(self).len == old(self).len + 1,
            !added ==> *final(self) == *old(self),
    {
        if self.len == MAX_TYPES {
            return false;
        }
        let index = self.len + 1;
        self.image_hash.insert(index, ImageRef::Rock);
        self.nums.insert(index, DEFAULT_COUNT);
        self.len = self.len + 1;
        true
    }

    /// Sets the number of players of type `key` to the absolute value of
    /// `parsed`.
    pub fn set_count(&mut self, key: i32, parsed: i32)
        requires
            parsed != i32::MIN,
        ensures
            final(self).nums@ == old(self).nums@.insert(key, abs(parsed as int) as i32),
            final(self).image_hash@ == old(self).image_hash@,
            final(self).len == old(self).len,
    {
        let value = if parsed < 0 {
            -parsed
        } else {
            parsed
        };
        self.nums.insert(key, value);
    }

    /// Removes type `k`: the types after it, up to `len`, move down by one
    /// and the roster has one type less. The entries of type `len` stay.
    pub fn remove_type(&mut self, k: i32)
        requires
            k < i32::MAX,
            old(self).len > i32::MIN,
            has_types_after(old(self).image_hash@, k as int, old(self).len as int),
            has_types_after(old(self).nums@, k as int, old(self).len as int),
        ensures
            final(self).image_hash@ == shifted_down(
                old(self).image_hash@,
                k as int,
                old(self).len as int,
            ),
            final(self).nums@ == shifted_down(old(self).nums@, k as int, old(self).len as int),
            final(self).len == old(self).len - 1,
    {
        let ghost images0 = self.image_hash@;
        let ghost nums0 = self.nums@;
        self.image_hash.remove(&k);
        self.nums.remove(&k);
        assert(self.image_hash@ =~= shifted_down(images0, k as int, k as int));
        assert(self.nums@ =~= shifted_down(nums0, k as int, k as int));
        let len = self.len;
        let mut i: i64 = k as i64 + 1;
        while i <= len as i64
            invariant
                len == old(self).len,
                self.len == len,
                k + 1 <= i,
                i <= len + 1 || i == k + 1,
                has_types_after(images0, k as int, len as int),
                has_types_after(nums0, k as int, len as int),
                self.image_hash@ == shifted_down(images0, k as int, i - 1),
                self.nums@ == shifted_down(nums0, k as int, i - 1),
            decreases len + 1 - i,
        {
            let key = i as i32;
            assert(images0.contains_key(key) && nums0.contains_key(key));
            let image = match self.image_hash.get(&key) {
                Some(v) => *v,
                None => {
                    assert(false);
                    ImageRef::Rock
                },
            };
            let num = match self.nums.get(&key) {
                Some(v) => *v,
                None => {
                    assert(false);
                    0
                },
            };
            self.image_hash.insert(key - 1, image);
            self.nums.insert(key - 1, num);
            assert(self.image_hash@ =~= shifted_down(images0, k as int, i as int));
            assert(self.nums@ =~= shifted_down(nums0, k as int, i as int));
            i = i + 1;
        }
        assert(shifted_down(images0, k as int, i - 1) =~= shifted_down(
            images0,
            k as int,
            len as int,
        ));
        assert(shifted_down(nums0, k as int, i - 1) =~= shifted_down(nums0, k as int, len as int));
        self.len = len - 1;
    }

    /// Rearranges the (image, count) pairs among the keys: the key at position
    /// `p` of `keys` takes the pair of the key at position `perm[p]`.
    pub fn apply_shuffle(&mut self, keys: &Vec<i32>, perm: &Vec<usize>)
        requires
            keys@.no_duplicates(),
            perm.len() == keys.len(),
            forall|p: int| 0 <= p < perm.len() ==> #[trigger] perm@[p] < keys.len(),
            forall|p: int|
                0 <= p < keys.len() ==> old(self).image_hash@.contains_key(#[trigger] keys@[p])
                    && old(self).nums@.contains_key(keys@[p]),
        ensures
            shuffled_by(old(self).image_hash@, final(self).image_hash@, keys@, perm@),
            shuffled_by(old(self).nums@, final(self).nums@, keys@, perm@),
            final(self).len == old(self).len,
    {
        let ghost images0 = self.image_hash@;
        let ghost nums0 = self.nums@;
        let n = keys.len();
        let mut images: Vec<ImageRef> = Vec::new();
        let mut counts: Vec<i32> = Vec::new();
        let mut p: usize = 0;
        while p < n
            invariant
                n == keys.len(),
                p <= n,
                images.len() == p,
                counts.len() == p,
                self.image_hash@ == images0,
                self.nums@ == nums0,
                forall|q: int|
                    0 <= q < n ==> images0.contains_key(#[trigger] keys@[q]) && nums0.contains_key(
                        keys@[q],
                    ),
                forall|q: int| 0 <= q < p ==> #[trigger] images@[q] == images0[keys@[q]],
                forall|q: int| 0 <= q < p ==> #[trigger] counts@[q] == nums0[keys@[q]],
            decreases n - p,
        {
            let key = keys[p];
            assert(images0.contains_key(keys@[p as int]));
            let image = match self.image_hash.get(&key) {
                Some(v) => *v,
                None => {
                    assert(false);
                    ImageRef::Rock
                },
            };
            let count = match self.nums.get(&key) {
                Some(v) => *v,
                None => {
                    assert(false);
                    0
                },
            };
            images.push(image);
            counts.push(count);
            p = p + 1;
        }
        let mut p: usize = 0;
        while p < n
            invariant
                n == keys.len(),
                p <= n,
                images.len() == n,
                counts.len() == n,
                perm.len() == n,
                keys@.no_duplicates(),
                self.len == old(self).len,
                forall|q: int| 0 <= q < n ==> #[trigger] perm@[q] < n,
                forall|q: int|
                    0 <= q < n ==> images0.contains_key(#[trigger] keys@[q]) && nums0.contains_key(
                        keys@[q],
                    ),
                forall|q: int| 0 <= q < n ==> #[trigger] images@[q] == images0[keys@[q]],
                forall|q: int| 0 <= q < n ==> #[trigger] counts@[q] == nums0[keys@[q]],
                self.image_hash@.dom() == images0.dom(),
                self.nums@.dom() == nums0.dom(),
                forall|q: int|
                    0 <= q < p ==> self.image_hash@[#[trigger] keys@[q]]
                        == images0[keys@[perm@[q] as int]],
                forall|q: int|
                    0 <= q < p ==> self.nums@[#[trigger] keys@[q]] == nums0[keys@[perm@[q] as int]],
                forall|j: i32|
                    images0.contains_key(j) && !keys@.subrange(0, p as int).contains(j)
                        ==> self.image_hash@[j] == images0[j],
                forall|j: i32|
                    nums0.contains_key(j) && !keys@.subrange(0, p as int).contains(j)
                        ==> self.nums@[j] == nums0[j],
            decreases n - p,
        {
            let key = keys[p];
            let from = perm[p];
            assert(from < n);
            let image = images[from];
            let count = counts[from];
            let ghost before_images = self.image_hash@;
            let ghost before_nums = self.nums@;
            self.image_hash.insert(key, image);
            self.nums.insert(key, count);
            assert(images0.contains_key(keys@[p as int]));
            assert(self.image_hash@.dom() =~= images0.dom());
            assert(self.nums@.dom() =~= nums0.dom());
            assert forall|q: int| 0 <= q < p implies keys@[q] != key by {}
            assert forall|j: i32|
                images0.contains_key(j) && !keys@.subrange(0, p as int + 1).contains(
                    j,
                ) implies self.image_hash@[j] == images0[j] by {
                if keys@.subrange(0, p as int).contains(j) {
                    let q = choose|q: int|
                        0 <= q < p && keys@.subrange(0, p as int)[q] == j;
                    assert(keys@.subrange(0, p as int + 1)[q] == j);
                }
                assert(keys@.subrange(0, p as int + 1)[p as int] == key);
            }
            assert forall|j: i32|
                nums0.contains_key(j) && !keys@.subrange(0, p as int + 1).contains(
                    j,
                ) implies self.nums@[j] == nums0[j] by {
                if keys@.subrange(0, p as int).contains(j) {
                    let q = choose|q: int|
                        0 <= q < p && keys@.subrange(0, p as int)[q] == j;
                    assert(keys@.subrange(0, p as int + 1)[q] == j);
                }
                assert(keys@.subrange(0, p as int + 1)[p as int] == key);
            }
            p = p + 1;
        }
        assert(keys@.subrange(0, n as int) =~= keys@);
    }

    /// Rearranges the (image, count) pairs of all types with an image at
    /// random, so that each such type ends up with the pair of one of them.
    pub fn shuffle_types(&mut self)
        requires
            forall|k: i32| old(self).image_hash@.contains_key(k) ==> old(self).nums@.contains_key(k),
        ensures
            exists|keys: Seq<i32>, perm: Seq<usize>|
                {
                    &&& shuffle_choice(old(self).image_hash@, keys, perm)
                    &&& shuffled_by(old(self).image_hash@, final(self).image_hash@, keys, perm)
                    &&& shuffled_by(old(self).nums@, final(self).nums@, keys, perm)
                },
            final(self).len == old(self).len,
    {
        let ghost images0 = self.image_hash@;
        let ghost nums0 = self.nums@;
        let mut keys: Vec<i32> = Vec::new();
        for k in it: self.image_hash.keys()
            invariant
                keys.len() == it.index(),
                forall|q: int| 0 <= q < keys.len() ==> #[trigger] keys@[q] == *it.seq()[q],
        {
            keys.push(*k);
        }
        let ghost listed = self.image_hash.keys().remaining().unref();
        assert(keys@ =~= listed);
        assert(keys@.to_set() == images0.dom());
        assert(keys@.no_duplicates());
        let n = keys.len();
        let mut order: Vec<usize> = Vec::new();
        let mut i: usize = 0;
        while i < n
            invariant
                i <= n,
                order.len() == i,
                forall|q: int| 0 <= q < i ==> #[trigger] order@[q] == q,
            decreases n - i,
        {
            order.push(i);
            i = i + 1;
        }
        let ghost identity = order@;
        assert(identity =~= Seq::new(n as nat, |q: int| q as usize));
        shuffle_order(&mut order);
        proof {
            broadcast use vstd::seq_lib::group_to_multiset_ensures;
            assert forall|p: int| 0 <= p < order.len() implies #[trigger] order@[p] < n by {
                assert(order@.contains(order@[p]));
                assert(order@.to_multiset().count(order@[p]) > 0);
                assert(identity.to_multiset().count(order@[p]) > 0);
                assert(identity.contains(order@[p]));
                let q = choose|q: int| 0 <= q < identity.len() && identity[q] == order@[p];
            }
            assert(order.len() == n) by {
                assert(order@.to_multiset().len() == identity.to_multiset().len());
            }
        }
        assert(is_permutation(order@, keys@.len()));
        self.apply_shuffle(&keys, &order);
        assert(shuffle_choice(images0, keys@, order@));
        assert(shuffled_by(images0, self.image_hash@, keys@, order@));
        assert(shuffled_by(nums0, self.nums@, keys@, order@));
    }

    /// Takes in an image file that the user picked for type `read.0`: where
    /// its bytes decode, the type gets the uploaded image numbered `upload`
    /// and the decoded pixels are returned; otherwise nothing changes.
    pub fn receive_image(&mut self, read: &ReadImage, upload: u64) -> (r: Option<DecodedImage>)
        ensures
            final(self).nums@ == old(self).nums@,
            final(self).len == old(self).len,
            match r {
                Some(d) => {
                    &&& decoded_from(read.1@, d.width, d.height, d.pixels@)
                    &&& d.pixels@.len() >= 4 * d.width * d.height
                    &&& final(self).image_hash@ == old(self).image_hash@.insert(
                        read.0,
                        ImageRef::Uploaded(upload),
                    )
                },
                None => final(self).image_hash@ == old(self).image_hash@,
            },
    {
        let decoded = decode_rgba(read.1.as_slice());
        if decoded.is_some() {
            self.set_image(read.0, ImageRef::Uploaded(upload));
        }
        decoded
    }

    /// Gives type `key` the image `image`.
    pub fn set_image(&mut self, key: i32, image: ImageRef)
        ensures
            final(self).image_hash@ == old(self).image_hash@.insert(key, image),
            final(self).nums@ == old(self).nums@,
            final(self).len == old(self).len,
    {
        self.image_hash.insert(key, image);
    }

    /// The image a player takes when it is converted to type `t`: the type's
    /// own image, or else the built-in image number `t % 3`, `t` taken as a
    /// `usize`.
    pub fn collision_image(&self, t: i32) -> (r: ImageRef)
        ensures
            r == if self.image_hash@.contains_key(t) {
                self.image_hash@[t]
            } else {
                builtin_image(((t as usize) % 3) as int)
            },
    {
        match self.image_hash.get(&t) {
            Some(image) => *image,
            None => {
                let i = (t as usize) % 3;
                if i == 0 {
                    ImageRef::Rock
                } else if i == 1 {
                    ImageRef::Paper
                } else {
                    ImageRef::Scissors
                }
            },
        }
    }

    /// The image shown for type `t` in the roster editor: its own image, or
    /// else the rock.
    pub fn icon_image(&self, t: i32) -> (r: ImageRef)
        ensures
            r == if self.image_hash@.contains_key(t) {
                self.image_hash@[t]
            } else {
                ImageRef::Rock
            },
    {
        match self.image_hash.get(&t) {
            Some(image) => *image,
            None => ImageRef::Rock,
        }
    }

    /// The number shown for type `t` in the roster editor: the absolute value
    /// of its count, or 35 where it has none.
    pub fn shown_count(&self, t: i32) -> (r: i32)
        requires
            self.nums@.contains_key(t) ==> self.nums@[t] != i32::MIN,
        ensures
            r == if self.nums@.contains_key(t) {
                abs(self.nums@[t] as int) as i32
            } else {
                DEFAULT_COUNT
            },
    {
        match self.nums.get(&t) {
            Some(n) => if *n < 0 {
                -*n
            } else {
                *n
            },
            None => DEFAULT_COUNT,
        }
    }

    /// The groups of players to spawn: for each type `1..=len` that has an
    /// image and a count, as many players as the count's absolute value, on
    /// the type's own layer.
    pub fn spawn_plan(&self) -> (r: Vec<SpawnGroup>)
        requires
            layers_fit(self.image_hash@, self.nums@, self.len as int),
            counts_negatable(self.image_hash@, self.nums@, self.len as int),
        ensures
            r@ == planned(self.image_hash@, self.nums@, self.len as int),
            forall|i: int|
                0 <= i < r.len() ==> {
                    let g = #[trigger] r@[i];
                    &&& 1 <= g.type_id <= self.len
                    &&& self.image_hash@.contains_key(g.type_id) && self.nums@.contains_key(g.type_id)
                    &&& g.image == self.image_hash@[g.type_id]
                    &&& g.count as int == abs(self.nums@[g.type_id] as int)
                    &&& g.layers.memberships == 1u32 << (g.type_id as u32)
                    &&& g.layers.filters == !(1u32 << (g.type_id as u32))
                },
            forall|i: int, j: int|
                0 <= i < j < r.len() ==> (#[trigger] r@[i]).type_id < (#[trigger] r@[j]).type_id,
            forall|t: i32|
                1 <= t <= self.len && #[trigger] self.image_hash@.contains_key(t)
                    && self.nums@.contains_key(t) ==> exists|i: int|
                    0 <= i < r.len() && (#[trigger] r@[i]).type_id == t,
    {
        let mut r: Vec<SpawnGroup> = Vec::new();
        let mut k: i32 = 0;
        while k < self.len
            invariant
                0 <= k,
                k <= self.len || k == 0,
                layers_fit(self.image_hash@, self.nums@, self.len as int),
                counts_negatable(self.image_hash@, self.nums@, self.len as int),
                r@ == planned(self.image_hash@, self.nums@, k as int),
            decreases self.len - k,
        {
            let i = k + 1;
            match self.image_hash.get(&i) {
                Some(image) => match self.nums.get(&i) {
                    Some(num) => {
                        assert(self.nums@.contains_key(i));
                        let count = if *num < 0 {
                            -*num
                        } else {
                            *num
                        };
                        let layers = type_layers(i);
                        r.push(SpawnGroup { type_id: i, image: *image, count, layers });
                    },
                    None => {},
                },
                None => {},
            }
            k = i;
        }
        proof {
            law_plan_follows_roster(self.image_hash@, self.nums@, self.len as int);
        }
        r
    }
}

impl Default for CustomInfo {
    fn default() -> (r: Self)
        ensures
            r.image_hash@ == Map::<i32, ImageRef>::empty(),
            r.nums@ == Map::<i32, i32>::empty(),
            r.len == 0,
    {
        CustomInfo::new()
    }
}

/// The (image, count) pair of type `k`.
pub open spec fn pair_of(images: Map<i32, ImageRef>, nums: Map<i32, i32>, k: i32) -> (ImageRef, i32) {
    (images[k], nums[k])
}

proof fn lemma_permutation_facts(perm: Seq<usize>, n: nat)
    requires
        is_permutation(perm, n),
    ensures
        perm.no_duplicates(),
        forall|p: int| 0 <= p < n ==> #[trigger] perm[p] < n,
        forall|q: usize| q < n ==> #[trigger] perm.contains(q),
{
    broadcast use vstd::seq_lib::group_to_multiset_ensures;

    let identity = Seq::new(n, |i: int| i as usize);
    assert forall|i: int, j: int| 0 <= i < identity.len() && 0 <= j < identity.len() && i != j implies identity[i] != identity[j] by {}
    assert(identity.no_duplicates());
    identity.lemma_multiset_has_no_duplicates();
    perm.lemma_multiset_has_no_duplicates_conv();
    assert forall|p: int| 0 <= p < n implies #[trigger] perm[p] < n by {
        assert(perm.contains(perm[p]));
        assert(perm.to_multiset().count(perm[p]) > 0);
        assert(identity.to_multiset().count(perm[p]) > 0);
        assert(identity.contains(perm[p]));
    }
    assert forall|q: usize| q < n implies #[trigger] perm.contains(q) by {
        assert(identity[q as int] == q);
        assert(identity.contains(q));
        assert(identity.to_multiset().count(q) > 0);
        assert(perm.to_multiset().count(q) > 0);
    }
}

/// Each type with an image now holds the pair that type `f(k)` held, `f`
/// being one-to-one from these types onto themselves.
pub open spec fn redeals(
    images: Map<i32, ImageRef>,
    nums: Map<i32, i32>,
    new_images: Map<i32, ImageRef>,
    new_nums: Map<i32, i32>,
    f: spec_fn(i32) -> i32,
) -> bool {
    &&& forall|k: i32|
        #![trigger f(k)]
        images.contains_key(k) ==> images.contains_key(f(k)) && pair_of(new_images, new_nums, k)
            == pair_of(images, nums, f(k))
    &&& forall|k1: i32, k2: i32|
        #![trigger f(k1), f(k2)]
        images.contains_key(k1) && images.contains_key(k2) && f(k1) == f(k2) ==> k1 == k2
    &&& forall|k2: i32|
        images.contains_key(k2) ==> exists|k: i32| images.contains_key(k) && #[trigger] f(k) == k2
}

/// Shuffling deals the (image, count) pairs of the types that have an image
/// out again among the same types: it neither creates, loses nor doubles a
/// pair. There is a one-to-one matching `f` of those types onto themselves
/// such that each type now holds the pair that type `f(k)` held before.
pub proof fn law_shuffle_redeals_pairs(
    images: Map<i32, ImageRef>,
    nums: Map<i32, i32>,
    new_images: Map<i32, ImageRef>,
    new_nums: Map<i32, i32>,
    keys: Seq<i32>,
    perm: Seq<usize>,
)
    requires
        shuffle_choice(images, keys, perm),
        shuffled_by(images, new_images, keys, perm),
        shuffled_by(nums, new_nums, keys, perm),
    ensures
        new_images.dom() == images.dom(),
        exists|f: spec_fn(i32) -> i32| #[trigger] redeals(images, nums, new_images, new_nums, f),
{
    let n = keys.len();
    lemma_permutation_facts(perm, n);
    let f = |k: i32| keys[perm[keys.index_of(k)] as int];
    assert forall|k: i32| images.contains_key(k) implies keys.contains(k) by {
        assert(keys.to_set().contains(k));
    }
    assert forall|k: i32| #![trigger f(k)] images.contains_key(k) implies images.contains_key(f(k))
        && pair_of(new_images, new_nums, k) == pair_of(images, nums, f(k)) by {
        let p = keys.index_of(k);
        assert(keys.contains(k));
        assert(0 <= p < n && keys[p] == k);
        assert(perm[p] < n);
        assert(keys.to_set().contains(keys[perm[p] as int]));
    }
    assert forall|k1: i32, k2: i32|
        #![trigger f(k1), f(k2)]
        images.contains_key(k1) && images.contains_key(k2) && f(k1) == f(k2) implies k1 == k2 by {
        let p1 = keys.index_of(k1);
        let p2 = keys.index_of(k2);
        assert(keys.contains(k1) && keys.contains(k2));
        assert(perm[p1] < n && perm[p2] < n);
        if perm[p1] != perm[p2] {
            assert(keys[perm[p1] as int] != keys[perm[p2] as int]);
        }
    }
    assert forall|k2: i32| images.contains_key(k2) implies exists|k: i32|
        images.contains_key(k) && #[trigger] f(k) == k2 by {
        assert(keys.contains(k2));
        let q = keys.index_of(k2);
        assert(0 <= q < n && keys[q] == k2);
        assert(perm.contains(q as usize));
        let p = choose|p: int| 0 <= p < n && #[trigger] perm[p] == q as usize;
        let k = keys[p];
        assert(keys.to_set().contains(k));
        assert(keys.index_of(k) == p) by {
            let p0 = keys.index_of(k);
            assert(keys.contains(k));
            assert(keys[p0] == k);
        }
        assert(perm[p] as int == q);
        assert(f(k) == keys[perm[p] as int]);
    }
    assert(redeals(images, nums, new_images, new_nums, f));
}

/// Every type `1..=len` has an image and a count.
pub open spec fn complete(images: Map<i32, ImageRef>, nums: Map<i32, i32>, len: int) -> bool {
    forall|t: i32|
        #![trigger images.contains_key(t)]
        #![trigger nums.contains_key(t)]
        1 <= t <= len ==> images.contains_key(t) && nums.contains_key(t)
}

/// Adding a type to a complete roster keeps it complete.
pub proof fn law_add_keeps_roster_complete(
    images: Map<i32, ImageRef>,
    nums: Map<i32, i32>,
    len: i32,
)
    requires
        complete(images, nums, len as int),
        len < i32::MAX,
    ensures
        complete(
            images.insert((len + 1) as i32, ImageRef::Rock),
            nums.insert((len + 1) as i32, DEFAULT_COUNT),
            len + 1,
        ),
{
}

/// Removing one of the types of a complete roster keeps it complete, one
/// type shorter: the types before the removed one keep their entries and
/// each later type takes the entries of the type after it.
pub proof fn law_remove_keeps_roster_complete(
    images: Map<i32, ImageRef>,
    nums: Map<i32, i32>,
    len: i32,
    k: i32,
)
    requires
        complete(images, nums, len as int),
        1 <= k <= len,
        k < i32::MAX,
    ensures
        has_types_after(images, k as int, len as int),
        has_types_after(nums, k as int, len as int),
        complete(
            shifted_down(images, k as int, len as int),
            shifted_down(nums, k as int, len as int),
            len - 1,
        ),
        forall|t: i32|
            1 <= t < k ==> #[trigger] shifted_down(images, k as int, len as int)[t] == images[t]
                && shifted_down(nums, k as int, len as int)[t] == nums[t],
        forall|t: i32|
            k <= t < len ==> #[trigger] shifted_down(images, k as int, len as int)[t] == images[(t
                + 1) as i32] && shifted_down(nums, k as int, len as int)[t] == nums[(t + 1) as i32],
{
    let si = shifted_down(images, k as int, len as int);
    let sn = shifted_down(nums, k as int, len as int);
    assert forall|t: i32| 1 <= t <= len - 1 implies #[trigger] si.contains_key(t)
        && sn.contains_key(t) by {
        assert(images.contains_key(t) && nums.contains_key(t));
    }
    assert forall|t: i32| k <= t < len implies #[trigger] si[t] == images[(t + 1) as i32] && sn[t]
        == nums[(t + 1) as i32] by {
        assert(images.contains_key(t) && nums.contains_key(t));
        assert(si.contains_key(t) && sn.contains_key(t));
    }
    assert forall|t: i32| 1 <= t < k implies #[trigger] si[t] == images[t] && sn[t] == nums[t] by {
        assert(images.contains_key(t) && nums.contains_key(t));
        assert(si.contains_key(t) && sn.contains_key(t));
    }
}

/// A complete roster spawns one group per type, in type order, each on its
/// type's own layer.
pub proof fn law_complete_roster_spawns_every_type(
    images: Map<i32, ImageRef>,
    nums: Map<i32, i32>,
    len: int,
)
    requires
        complete(images, nums, len),
        0 <= len <= 31,
    ensures
        planned(images, nums, len).len() == len,
        forall|i: int|
            0 <= i < len ==> #[trigger] planned(images, nums, len)[i] == group_for(
                images,
                nums,
                i + 1,
            ),
        forall|i: int|
            0 <= i < len ==> {
                let g = #[trigger] planned(images, nums, len)[i];
                &&& g.type_id == i + 1
                &&& g.image == images[(i + 1) as i32]
                &&& nums[(i + 1) as i32] != i32::MIN ==> g.count as int == abs(
                    nums[(i + 1) as i32] as int,
                )
                &&& g.layers.memberships == 1u32 << ((i + 1) as u32)
                &&& g.layers.filters == !(1u32 << ((i + 1) as u32))
            },
    decreases len,
{
    if len > 0 {
        assert(images.contains_key(len as i32) && nums.contains_key(len as i32));
        law_complete_roster_spawns_every_type(images, nums, len - 1);
    }
}

/// The plan spawns, in increasing type order, exactly the types `1..=upto`
/// that have both an image and a count, each once: with the type's image, as
/// many players as the absolute value of the type's count, on the type's own
/// layer bit.
pub proof fn law_plan_follows_roster(images: Map<i32, ImageRef>, nums: Map<i32, i32>, upto: int)
    requires
        upto <= i32::MAX,
        counts_negatable(images, nums, upto),
    ensures
        forall|i: int|
            0 <= i < planned(images, nums, upto).len() ==> {
                let g = #[trigger] planned(images, nums, upto)[i];
                &&& 1 <= g.type_id <= upto
                &&& images.contains_key(g.type_id) && nums.contains_key(g.type_id)
                &&& g.image == images[g.type_id]
                &&& g.count as int == abs(nums[g.type_id] as int)
                &&& g.layers.memberships == 1u32 << (g.type_id as u32)
                &&& g.layers.filters == !(1u32 << (g.type_id as u32))
            },
        forall|i: int, j: int|
            0 <= i < j < planned(images, nums, upto).len() ==> (#[trigger] planned(
                images,
                nums,
                upto,
            )[i]).type_id < (#[trigger] planned(images, nums, upto)[j]).type_id,
        forall|t: i32|
            1 <= t <= upto && #[trigger] images.contains_key(t) && nums.contains_key(t) ==> exists|
                i: int,
            |
                0 <= i < planned(images, nums, upto).len() && (#[trigger] planned(
                    images,
                    nums,
                    upto,
                )[i]).type_id == t,
    decreases upto,
{
    if upto > 0 {
        assert(counts_negatable(images, nums, upto - 1));
        law_plan_follows_roster(images, nums, upto - 1);
        let before = planned(images, nums, upto - 1);
        let p = planned(images, nums, upto);
        let t0 = upto as i32;
        if images.contains_key(t0) && nums.contains_key(t0) {
            assert(nums[t0] != i32::MIN);
            assert(p == before.push(group_for(images, nums, upto)));
            assert forall|i: int| 0 <= i < before.len() implies #[trigger] p[i] == before[i] by {}
            assert forall|t: i32|
                1 <= t <= upto && #[trigger] images.contains_key(t) && nums.contains_key(
                    t,
                ) implies exists|i: int| 0 <= i < p.len() && (#[trigger] p[i]).type_id == t by {
                if t == t0 {
                    assert(p[before.len() as int].type_id == t);
                } else {
                    let i = choose|i: int| 0 <= i < before.len() && (#[trigger] before[i]).type_id == t;
                    assert(p[i] == before[i]);
                }
            }
        } else {
            assert forall|t: i32|
                1 <= t <= upto && #[trigger] images.contains_key(t) && nums.contains_key(
                    t,
                ) implies exists|i: int| 0 <= i < p.len() && (#[trigger] p[i]).type_id == t by {
                assert(t != t0);
            }
        }
    }
}

/// The roster editor never holds more than 30 types: from a roster of 0 to
/// 30 types, adding a type (refused at 30) leaves 0 to 30 types.
pub proof fn law_add_keeps_len_bounded(len: i32)
    requires
        0 <= len <= MAX_TYPES,
    ensures
        ({
            let added = len != MAX_TYPES;
            let after = if added {
                len + 1
            } else {
                len as int
            };
            0 <= after <= MAX_TYPES
        }),
{
}

} // verus!
