//! Composite memory: storage objects mounted side by side in one address
//! space.

use crate::storage::{Image, Storage};
use vstd::prelude::*;

verus! {

/// Why a mount failed.
#[derive(PartialEq, Debug, Clone, Copy)]
pub enum MountError {
    /// The fragment would have intersected a mounted fragment, or would have
    /// reached past the end of the address space.
    FragmentIntersection,
    /// Another fragment is mounted under the same key.
    KeyAlreadyExists,
}

/// A mounted fragment as the contracts see it.
pub struct Mount {
    /// The address of the fragment's first byte.
    pub base: u32,
    /// The key under which the fragment is mounted.
    pub key: Seq<char>,
    /// What the fragment holds.
    pub image: Image,
}

impl Mount {
    /// The address after the fragment's last byte.
    pub open spec fn upper(self) -> int {
        self.base + self.image.cells.len()
    }

    /// Whether `address` is one of the fragment's own addresses.
    pub open spec fn holds(self, address: int) -> bool {
        self.base <= address < self.upper()
    }

    /// Whether a fragment mounted at `[address, upper)` would intersect this
    /// one: it would begin at or before this one and reach past its base, or
    /// begin after its base and before its end.
    pub open spec fn intersects(self, address: int, upper: int) -> bool {
        if self.base >= address {
            upper > self.base
        } else {
            self.upper() > address
        }
    }
}

/// The fragments lie within the address space, in the order of their
/// addresses and without intersecting, and no two have the same key.
pub open spec fn mounts_wf(mounts: Seq<Mount>) -> bool {
    &&& forall|i: int|
        0 <= i < mounts.len() ==> (#[trigger] mounts[i]).image.wf() && mounts[i].upper()
            <= u32::MAX
    &&& forall|i: int, j: int|
        0 <= i < j < mounts.len() ==> (#[trigger] mounts[i]).upper() <= (#[trigger] mounts[j]).base
    &&& forall|i: int, j: int|
        0 <= i < j < mounts.len() ==> (#[trigger] mounts[i]).key != (#[trigger] mounts[j]).key
}

/// Whether `index` is where a fragment with the base `address` belongs:
/// after every fragment with a smaller base and before all others.
pub open spec fn is_mount_index(mounts: Seq<Mount>, address: int, index: int) -> bool {
    &&& 0 <= index <= mounts.len()
    &&& forall|i: int| 0 <= i < index ==> (#[trigger] mounts[i]).base < address
    &&& forall|i: int| index <= i < mounts.len() ==> (#[trigger] mounts[i]).base >= address
}

/// Where a fragment with the base `address` belongs.
pub open spec fn mount_index(mounts: Seq<Mount>, address: int) -> int {
    choose|index: int| #[trigger] is_mount_index(mounts, address, index)
}

/// Whether the fragment at `index` is the one that an access to `address` is
/// handed to: the last fragment whose base is not above `address`.
pub open spec fn is_located(mounts: Seq<Mount>, address: int, index: int) -> bool {
    &&& 0 <= index < mounts.len()
    &&& mounts[index].base <= address
    &&& forall|i: int| index < i < mounts.len() ==> address < (#[trigger] mounts[i]).base
}

/// Whether an access to `address` is handed to any fragment.
pub open spec fn has_location(mounts: Seq<Mount>, address: int) -> bool {
    exists|index: int| #[trigger] is_located(mounts, address, index)
}

/// The fragment that an access to `address` is handed to.
pub open spec fn location(mounts: Seq<Mount>, address: int) -> int {
    choose|index: int| #[trigger] is_located(mounts, address, index)
}

/// Whether a fragment is mounted under `key`.
pub open spec fn has_key(mounts: Seq<Mount>, key: Seq<char>) -> bool {
    exists|i: int| 0 <= i < mounts.len() && (#[trigger] mounts[i]).key == key
}

/// The position of the fragment mounted under `key`.
pub open spec fn key_position(mounts: Seq<Mount>, key: Seq<char>) -> int {
    choose|i: int| 0 <= i < mounts.len() && (#[trigger] mounts[i]).key == key
}

/// Whether a fragment mounted at `[address, upper)` would intersect any
/// mounted fragment.
pub open spec fn intersects_any(mounts: Seq<Mount>, address: int, upper: int) -> bool {
    exists|i: int| 0 <= i < mounts.len() && (#[trigger] mounts[i]).intersects(address, upper)
}

/// What mounting `mount` gives: the fragments after it, or the reason for
/// which it is refused. A key in use is reported before anything else.
pub open spec fn mounted(mounts: Seq<Mount>, mount: Mount) -> Result<Seq<Mount>, MountError> {
    if has_key(mounts, mount.key) {
        Err(MountError::KeyAlreadyExists)
    } else if mount.upper() > u32::MAX || intersects_any(mounts, mount.base as int, mount.upper()) {
        Err(MountError::FragmentIntersection)
    } else {
        Ok(mounts.insert(mount_index(mounts, mount.base as int), mount))
    }
}

/// What unmounting `key` gives: the fragments after it, which are the
/// fragments before it if none is mounted under `key`.
pub open spec fn unmounted(mounts: Seq<Mount>, key: Seq<char>) -> Seq<Mount> {
    if has_key(mounts, key) {
        mounts.remove(key_position(mounts, key))
    } else {
        mounts
    }
}

/// The length of a composite memory: the address after the last byte of the
/// last fragment, or zero without fragments.
pub open spec fn total_size(mounts: Seq<Mount>) -> int {
    if mounts.len() == 0 {
        0
    } else {
        mounts.last().upper()
    }
}

/// The byte at `address`: the byte of the fragment that holds the address, or
/// zero where no fragment does.
pub open spec fn cell_at(mounts: Seq<Mount>, address: int) -> u8 {
    if has_location(mounts, address) && address < mounts[location(mounts, address)].upper() {
        let mount = mounts[location(mounts, address)];
        mount.image.cells[address - mount.base]
    } else {
        0
    }
}

/// Whether the window of `length` bytes at `address` can be accessed: the
/// fragment that `address` is handed to has the window within its bounds.
pub open spec fn window_at(mounts: Seq<Mount>, address: nat, length: nat) -> bool {
    &&& has_location(mounts, address as int)
    &&& {
        let mount = mounts[location(mounts, address as int)];
        mount.image.windows.contains(((address - mount.base) as nat, length))
    }
}

/// What a composite memory with the fragments `mounts` holds.
pub open spec fn composite_image(mounts: Seq<Mount>) -> Image {
    Image {
        cells: Seq::new(total_size(mounts) as nat, |address: int| cell_at(mounts, address)),
        windows: Set::new(|w: (nat, nat)| window_at(mounts, w.0, w.1)),
        direct: forall|i: int| 0 <= i < mounts.len() ==> (#[trigger] mounts[i]).image.direct,
    }
}

/// The fragments `mounts` with the image of the fragment at `index` replaced.
pub open spec fn with_image(mounts: Seq<Mount>, index: int, image: Image) -> Seq<Mount> {
    mounts.update(index, Mount { base: mounts[index].base, key: mounts[index].key, image })
}

/// No two positions are where a fragment belongs.
pub proof fn lemma_mount_index_unique(mounts: Seq<Mount>, address: int, i: int, j: int)
    requires
        is_mount_index(mounts, address, i),
        is_mount_index(mounts, address, j),
    ensures
        i == j,
{
    if i < j {
        assert(mounts[i].base < address);
    }
    if j < i {
        assert(mounts[j].base < address);
    }
}

/// No two fragments are handed the same address.
pub proof fn lemma_location_unique(mounts: Seq<Mount>, address: int, i: int, j: int)
    requires
        is_located(mounts, address, i),
        is_located(mounts, address, j),
    ensures
        i == j,
{
    if i < j {
        assert(address < mounts[j].base);
    }
    if j < i {
        assert(address < mounts[i].base);
    }
}

/// An address that a fragment holds is handed to that fragment.
pub proof fn lemma_holder_is_located(mounts: Seq<Mount>, address: int, index: int)
    requires
        mounts_wf(mounts),
        0 <= index < mounts.len(),
        mounts[index].holds(address),
    ensures
        is_located(mounts, address, index),
        has_location(mounts, address),
        location(mounts, address) == index,
{
    assert forall|i: int| index < i < mounts.len() implies address < (#[trigger] mounts[i]).base by {
        assert(mounts[index].upper() <= mounts[i].base);
    }
    assert(is_located(mounts, address, index));
    lemma_location_unique(mounts, address, index, location(mounts, address));
}

/// The key of a mounted fragment is found at the fragment's position.
pub proof fn lemma_key_position(mounts: Seq<Mount>, index: int)
    requires
        mounts_wf(mounts),
        0 <= index < mounts.len(),
    ensures
        has_key(mounts, mounts[index].key),
        key_position(mounts, mounts[index].key) == index,
{
    let found = key_position(mounts, mounts[index].key);
    if found < index {
        assert(mounts[found].key != mounts[index].key);
    }
    if index < found {
        assert(mounts[index].key != mounts[found].key);
    }
}

/// The image of well-formed fragments is well-formed.
pub proof fn lemma_composite_image_wf(mounts: Seq<Mount>)
    requires
        mounts_wf(mounts),
    ensures
        composite_image(mounts).wf(),
{
    let image = composite_image(mounts);
    if mounts.len() > 0 {
        assert(mounts.last() == mounts[mounts.len() - 1]);
    }
    assert forall|a: nat, l: nat| #[trigger] image.windows.contains((a, l)) implies a + l
        <= image.cells.len() by {
        assert(window_at(mounts, a, l));
        let i = location(mounts, a as int);
        assert(is_located(mounts, a as int, i));
        assert(mounts[i].image.wf());
        if i < mounts.len() - 1 {
            assert(mounts[i].upper() <= mounts[mounts.len() - 1].base);
        }
    }
}

/// Replacing the image of a fragment by one of the same size keeps every
/// location.
pub proof fn lemma_with_image_location(mounts: Seq<Mount>, index: int, image: Image, address: int)
    requires
        0 <= index < mounts.len(),
    ensures
        has_location(with_image(mounts, index, image), address) == has_location(mounts, address),
        has_location(mounts, address) ==> location(with_image(mounts, index, image), address)
            == location(mounts, address),
{
    let after = with_image(mounts, index, image);
    assert forall|i: int| is_located(mounts, address, i) == is_located(after, address, i) by {
        if is_located(mounts, address, i) {
            assert forall|j: int| i < j < after.len() implies address < (#[trigger] after[j]).base by {
                assert(address < mounts[j].base);
            }
        }
        if is_located(after, address, i) {
            assert forall|j: int| i < j < mounts.len() implies address < (#[trigger] mounts[j]).base by {
                assert(address < after[j].base);
            }
        }
    }
    if has_location(mounts, address) {
        let i = location(mounts, address);
        assert(is_located(after, address, i));
        lemma_location_unique(after, address, i, location(after, address));
    }
    if has_location(after, address) {
        let i = location(after, address);
        assert(is_located(mounts, address, i));
    }
}

/// A window that a fragment has within its bounds reads in the composite
/// memory as it reads in the fragment.
pub proof fn lemma_window_of_fragment(mounts: Seq<Mount>, index: int, address: u32, length: u32)
    requires
        mounts_wf(mounts),
        is_located(mounts, address as int, index),
        mounts[index].image.covers((address - mounts[index].base) as u32, length),
    ensures
        composite_image(mounts).covers(address, length),
        composite_image(mounts).window(address, length) == mounts[index].image.window(
            (address - mounts[index].base) as u32,
            length,
        ),
{
    let image = composite_image(mounts);
    let mount = mounts[index];
    let local = (address - mount.base) as u32;
    lemma_composite_image_wf(mounts);
    lemma_location_unique(mounts, address as int, index, location(mounts, address as int));
    assert(window_at(mounts, address as nat, length as nat));
    assert(mount.image.wf());
    assert(mount.image.windows.contains((local as nat, length as nat)));
    assert(image.windows.contains((address as nat, length as nat)));
    assert forall|k: int| 0 <= k < length implies image.window(address, length)[k]
        == mount.image.window(local, length)[k] by {
        lemma_holder_is_located(mounts, address + k, index);
    }
    assert(image.window(address, length) =~= mount.image.window(local, length));
}

/// Replacing bytes in a fragment is replacing them in the composite memory
/// at the fragment's base plus the address in the fragment.
pub proof fn lemma_replace_in_fragment(
    mounts: Seq<Mount>,
    index: int,
    address: u32,
    bytes: Seq<u8>,
)
    requires
        mounts_wf(mounts),
        is_located(mounts, address as int, index),
        bytes.len() <= u32::MAX,
        mounts[index].image.covers((address - mounts[index].base) as u32, bytes.len() as u32),
    ensures
        composite_image(
            with_image(
                mounts,
                index,
                mounts[index].image.replaced((address - mounts[index].base) as u32, bytes),
            ),
        ) == composite_image(mounts).replaced(address, bytes),
{
    let mount = mounts[index];
    let local = (address - mount.base) as u32;
    let replaced = mount.image.replaced(local, bytes);
    let after = with_image(mounts, index, replaced);
    let left = composite_image(after);
    let right = composite_image(mounts).replaced(address, bytes);
    assert(mount.image.wf());
    assert(mount.image.windows.contains((local as nat, bytes.len())));
    assert(total_size(after) == total_size(mounts)) by {
        if mounts.len() > 0 {
            assert(after.last() == after[mounts.len() - 1]);
            assert(mounts.last() == mounts[mounts.len() - 1]);
        }
    }
    assert forall|a: int| 0 <= a < left.cells.len() implies left.cells[a] == right.cells[a] by {
        lemma_with_image_location(mounts, index, replaced, a);
        if address <= a < address + bytes.len() {
            lemma_holder_is_located(mounts, a, index);
        }
    }
    assert(left.cells =~= right.cells);
    assert forall|w: (nat, nat)| left.windows.contains(w) == right.windows.contains(w) by {
        lemma_with_image_location(mounts, index, replaced, w.0 as int);
    }
    assert(left.windows =~= right.windows);
    assert(left.direct == right.direct) by {
        if right.direct {
            assert forall|i: int| 0 <= i < after.len() implies (#[trigger] after[i]).image.direct by {
                assert(mounts[i].image.direct);
            }
        }
        if left.direct {
            assert forall|i: int| 0 <= i < mounts.len() implies (#[trigger] mounts[i]).image.direct by {
                assert(after[i].image.direct);
            }
        }
    }
}

/// Storing into a fragment is storing into the composite memory at the
/// fragment's base plus the address in the fragment.
pub proof fn lemma_store_in_fragment(
    mounts: Seq<Mount>,
    index: int,
    address: u32,
    size: u32,
    value: u32,
)
    requires
        mounts_wf(mounts),
        is_located(mounts, address as int, index),
        mounts[index].image.reaches((address - mounts[index].base) as u32, size),
    ensures
        composite_image(
            with_image(
                mounts,
                index,
                mounts[index].image.stored((address - mounts[index].base) as u32, size, value),
            ),
        ) == composite_image(mounts).stored(address, size, value),
{
    lemma_replace_in_fragment(mounts, index, address, crate::bytes::le_bytes(value, size as nat));
}

/// Replacing the image of a fragment by one of the same size that is
/// well-formed keeps the fragments well-formed.
pub proof fn lemma_with_image_wf(mounts: Seq<Mount>, index: int, image: Image)
    requires
        mounts_wf(mounts),
        0 <= index < mounts.len(),
        image.wf(),
        image.cells.len() == mounts[index].image.cells.len(),
    ensures
        mounts_wf(with_image(mounts, index, image)),
{
    let after = with_image(mounts, index, image);
    assert forall|i: int| 0 <= i < after.len() implies (#[trigger] after[i]).image.wf()
        && after[i].upper() <= u32::MAX by {
        assert(mounts[i].image.wf());
    }
    assert forall|i: int, j: int| 0 <= i < j < after.len() implies (#[trigger] after[i]).upper()
        <= (#[trigger] after[j]).base && after[i].key != after[j].key by {
        assert(mounts[i].upper() <= mounts[j].base);
        assert(mounts[i].key != mounts[j].key);
    }
}

/// Among fragments in the order of their addresses there is a position where
/// a fragment with the base `address` belongs.
pub proof fn lemma_mount_index_exists(mounts: Seq<Mount>, address: int)
    requires
        mounts_wf(mounts),
    ensures
        is_mount_index(mounts, address, mount_index(mounts, address)),
    decreases mounts.len(),
{
    if mounts.len() == 0 {
        assert(is_mount_index(mounts, address, 0));
    } else {
        let front = mounts.drop_last();
        let last = mounts.len() - 1;
        assert forall|i: int| 0 <= i < front.len() implies front[i] == mounts[i] by {}
        assert(mounts_wf(front)) by {
            assert forall|i: int, j: int| 0 <= i < j < front.len() implies (
            #[trigger] front[i]).upper() <= (#[trigger] front[j]).base && front[i].key
                != front[j].key by {
                assert(mounts[i].upper() <= mounts[j].base);
                assert(mounts[i].key != mounts[j].key);
            }
            assert forall|i: int| 0 <= i < front.len() implies (#[trigger] front[i]).image.wf()
                && front[i].upper() <= u32::MAX by {
                assert(mounts[i].image.wf());
            }
        }
        lemma_mount_index_exists(front, address);
        let k = mount_index(front, address);
        if mounts[last].base < address {
            assert forall|i: int| 0 <= i < mounts.len() implies (#[trigger] mounts[i]).base
                < address by {
                if i < last {
                    assert(mounts[i].upper() <= mounts[last].base);
                }
            }
            assert(is_mount_index(mounts, address, mounts.len() as int));
        } else {
            assert forall|i: int| 0 <= i < k implies (#[trigger] mounts[i]).base < address by {
                assert(front[i].base < address);
            }
            assert forall|i: int| k <= i < mounts.len() implies (#[trigger] mounts[i]).base
                >= address by {
                if i < last {
                    assert(front[i].base >= address);
                }
            }
            assert(is_mount_index(mounts, address, k));
        }
    }
}

/// A mount that succeeds leaves the fragments well-formed, with the new
/// fragment among them at the position where it belongs.
pub proof fn lemma_mounted_wf(mounts: Seq<Mount>, mount: Mount)
    requires
        mounts_wf(mounts),
        mount.image.wf(),
        mounted(mounts, mount) is Ok,
    ensures
        mounts_wf(mounted(mounts, mount)->Ok_0),
        mounted(mounts, mount)->Ok_0.len() == mounts.len() + 1,
        mounted(mounts, mount)->Ok_0[mount_index(mounts, mount.base as int)] == mount,
{
    let address = mount.base as int;
    let index = mount_index(mounts, address);
    let after = mounts.insert(index, mount);
    lemma_mount_index_exists(mounts, address);
    mounts.insert_ensures(index, mount);
    assert forall|i: int| 0 <= i < mounts.len() implies !(#[trigger] mounts[i]).intersects(
        address,
        mount.upper(),
    ) by {}
    assert forall|i: int| 0 <= i < mounts.len() implies (#[trigger] mounts[i]).key
        != mount.key by {}
    assert forall|i: int, j: int| 0 <= i < j < after.len() implies (#[trigger] after[i]).upper()
        <= (#[trigger] after[j]).base && after[i].key != after[j].key by {
        let a = if i < index {
            i
        } else {
            i - 1
        };
        let b = if j < index {
            j
        } else {
            j - 1
        };
        if i == index {
            assert(after[j] == mounts[b]);
            assert(!mounts[b].intersects(address, mount.upper()));
        } else if j == index {
            assert(after[i] == mounts[a]);
            assert(!mounts[a].intersects(address, mount.upper()));
        } else {
            assert(after[i] == mounts[a]);
            assert(after[j] == mounts[b]);
            assert(mounts[a].upper() <= mounts[b].base);
        }
    }
    assert forall|i: int| 0 <= i < after.len() implies (#[trigger] after[i]).image.wf()
        && after[i].upper() <= u32::MAX by {
        if i < index {
            assert(after[i] == mounts[i]);
        } else if i > index {
            assert(after[i] == mounts[i - 1]);
        }
    }
}

/// A mount under a key in use fails with `KeyAlreadyExists`, whatever the
/// address. A mount under a new key that would intersect a mounted fragment
/// fails with `FragmentIntersection`. Neither changes the fragments.
pub proof fn lemma_mount_refusals(mounts: Seq<Mount>, mount: Mount, index: int)
    requires
        0 <= index < mounts.len(),
    ensures
        mounts[index].key == mount.key ==> mounted(mounts, mount) == Err::<
            Seq<Mount>,
            MountError,
        >(MountError::KeyAlreadyExists),
        !has_key(mounts, mount.key) && mounts[index].intersects(mount.base as int, mount.upper())
            ==> mounted(mounts, mount) == Err::<Seq<Mount>, MountError>(
            MountError::FragmentIntersection,
        ),
{
}

/// Two fragments with different bases can be mounted in either order: where
/// both orders succeed, they give the same fragments.
pub proof fn lemma_mount_order(mounts: Seq<Mount>, first: Mount, second: Mount)
    requires
        mounts_wf(mounts),
        first.image.wf(),
        second.image.wf(),
        first.base != second.base,
        mounted(mounts, first) is Ok,
        mounted(mounted(mounts, first)->Ok_0, second) is Ok,
        mounted(mounts, second) is Ok,
        mounted(mounted(mounts, second)->Ok_0, first) is Ok,
    ensures
        mounted(mounted(mounts, first)->Ok_0, second) == mounted(
            mounted(mounts, second)->Ok_0,
            first,
        ),
{
    if first.base < second.base {
        lemma_mount_order_ascending(mounts, first, second);
    } else {
        lemma_mount_order_ascending(mounts, second, first);
    }
}

/// The case of `lemma_mount_order` in which `low` has the smaller base.
proof fn lemma_mount_order_ascending(mounts: Seq<Mount>, low: Mount, high: Mount)
    requires
        mounts_wf(mounts),
        low.image.wf(),
        high.image.wf(),
        low.base < high.base,
        mounted(mounts, low) is Ok,
        mounted(mounted(mounts, low)->Ok_0, high) is Ok,
        mounted(mounts, high) is Ok,
        mounted(mounted(mounts, high)->Ok_0, low) is Ok,
    ensures
        mounted(mounted(mounts, low)->Ok_0, high) == mounted(mounted(mounts, high)->Ok_0, low),
{
    let kl = mount_index(mounts, low.base as int);
    let kh = mount_index(mounts, high.base as int);
    lemma_mount_index_exists(mounts, low.base as int);
    lemma_mount_index_exists(mounts, high.base as int);
    let with_low = mounts.insert(kl, low);
    let with_high = mounts.insert(kh, high);
    mounts.insert_ensures(kl, low);
    mounts.insert_ensures(kh, high);
    assert(kl <= kh) by {
        if kh < kl {
            assert(mounts[kh].base < low.base);
            assert(mounts[kh].base >= high.base);
        }
    }
    lemma_mounted_wf(mounts, low);
    lemma_mounted_wf(mounts, high);
    assert(is_mount_index(with_low, high.base as int, kh + 1)) by {
        assert forall|i: int| 0 <= i < kh + 1 implies (#[trigger] with_low[i]).base
            < high.base by {
            if i < kl {
                assert(with_low[i] == mounts[i]);
            } else if i > kl {
                assert(with_low[i] == mounts[i - 1]);
            }
        }
        assert forall|i: int| kh + 1 <= i < with_low.len() implies (#[trigger] with_low[i]).base
            >= high.base by {
            assert(with_low[i] == mounts[i - 1]);
        }
    }
    assert(is_mount_index(with_high, low.base as int, kl)) by {
        assert forall|i: int| 0 <= i < kl implies (#[trigger] with_high[i]).base < low.base by {
            assert(with_high[i] == mounts[i]);
        }
        assert forall|i: int| kl <= i < with_high.len() implies (#[trigger] with_high[i]).base
            >= low.base by {
            if i < kh {
                assert(with_high[i] == mounts[i]);
            } else if i > kh {
                assert(with_high[i] == mounts[i - 1]);
            }
        }
    }
    lemma_mount_index_exists(with_low, high.base as int);
    lemma_mount_index_exists(with_high, low.base as int);
    lemma_mount_index_unique(
        with_low,
        high.base as int,
        kh + 1,
        mount_index(with_low, high.base as int),
    );
    lemma_mount_index_unique(
        with_high,
        low.base as int,
        kl,
        mount_index(with_high, low.base as int),
    );
    let left = with_low.insert(kh + 1, high);
    let right = with_high.insert(kl, low);
    with_low.insert_ensures(kh + 1, high);
    with_high.insert_ensures(kl, low);
    assert forall|i: int| 0 <= i < left.len() implies left[i] == right[i] by {
        if i < kl {
            assert(left[i] == with_low[i]);
            assert(right[i] == with_high[i]);
        } else if i == kl {
        } else if i <= kh {
            assert(left[i] == with_low[i]);
            assert(with_low[i] == mounts[i - 1]);
            assert(right[i] == with_high[i - 1]);
            assert(with_high[i - 1] == mounts[i - 1]);
        } else if i == kh + 1 {
            assert(right[i] == with_high[i - 1]);
        } else {
            assert(left[i] == with_low[i - 1]);
            assert(with_low[i - 1] == mounts[i - 2]);
            assert(right[i] == with_high[i - 1]);
            assert(with_high[i - 1] == mounts[i - 2]);
        }
    }
    assert(left =~= right);
}

/// After a fragment was unmounted no fragment is mounted under its key, so
/// unmounting the key once more finds nothing and changes nothing.
pub proof fn lemma_unmount_twice(mounts: Seq<Mount>, key: Seq<char>)
    requires
        mounts_wf(mounts),
    ensures
        !has_key(unmounted(mounts, key), key),
        unmounted(unmounted(mounts, key), key) == unmounted(mounts, key),
{
    if has_key(mounts, key) {
        let index = key_position(mounts, key);
        let after = mounts.remove(index);
        mounts.remove_ensures(index);
        if has_key(after, key) {
            let i = key_position(after, key);
            let a = if i < index {
                i
            } else {
                i + 1
            };
            assert(after[i] == mounts[a]);
            if a < index {
                assert(mounts[a].key != mounts[index].key);
            } else {
                assert(mounts[index].key != mounts[a].key);
            }
        }
    }
}

/// One fragment with its address and its key.
struct Fragment<F: Storage + ?Sized> {
    base: u32,
    key: String,
    storage: Box<F>,
}

impl<F: Storage + ?Sized> Fragment<F> {
    spec fn mount(&self) -> Mount {
        Mount { base: self.base, key: self.key@, image: self.storage.image() }
    }
}

/// A storage made of fragments: storage objects mounted at addresses of one
/// address space, each under a key.
///
/// The length of a composite memory is the address after the last byte of
/// its last fragment. An address between fragments belongs to the length but
/// cannot be accessed.
pub struct CompositeMemory<F: Storage + ?Sized> {
    fragments: Vec<Fragment<F>>,
}

impl<F: Storage + ?Sized> CompositeMemory<F> {
    /// The mounted fragments in the order of their addresses.
    pub closed spec fn view(&self) -> Seq<Mount> {
        Seq::new(self.fragments@.len(), |i: int| self.fragments@[i].mount())
    }

    /// The storage objects of the fragments, in the order of their addresses.
    pub closed spec fn storages(&self) -> Seq<Box<F>> {
        Seq::new(self.fragments@.len(), |i: int| self.fragments@[i].storage)
    }

    /// Each fragment holds what its storage object holds.
    pub proof fn lemma_storages(&self, index: int)
        requires
            0 <= index < self@.len(),
        ensures
            self.storages().len() == self@.len(),
            self.storages()[index].image() == self@[index].image,
    {
    }

    /// The fragments are well-formed, and so is each storage object.
    pub closed spec fn valid(&self) -> bool {
        &&& mounts_wf(self@)
        &&& forall|i: int| 0 <= i < self.fragments@.len() ==> (#[trigger] self.fragments@[i]).storage.inv()
    }

    /// A valid composite memory has well-formed fragments.
    pub proof fn lemma_valid(&self)
        requires
            self.valid(),
        ensures
            mounts_wf(self@),
    {
    }

    /// A composite memory without fragments.
    pub fn new() -> (memory: CompositeMemory<F>)
        ensures
            memory@ == Seq::<Mount>::empty(),
            memory.storages() == Seq::<Box<F>>::empty(),
            memory.valid(),
    {
        let memory = CompositeMemory { fragments: Vec::new() };
        assert(memory@ =~= Seq::<Mount>::empty());
        assert(memory.storages() =~= Seq::<Box<F>>::empty());
        memory
    }

    /// The position of the fragment mounted under `key`, if there is one.
    fn find_key(&self, key: &String) -> (r: Option<usize>)
        requires
            self.valid(),
        ensures
            r is Some <==> has_key(self@, key@),
            r matches Some(i) ==> i < self@.len() && i == key_position(self@, key@),
    {
        let mut i: usize = 0;
        while i < self.fragments.len()
            invariant
                self.valid(),
                i <= self.fragments@.len(),
                forall|j: int| 0 <= j < i ==> (#[trigger] self@[j]).key != key@,
            decreases self.fragments@.len() - i,
        {
            if self.fragments[i].key == *key {
                proof {
                    assert(self@[i as int].key == key@);
                    lemma_key_position(self@, i as int);
                }
                return Some(i);
            }
            i += 1;
        }
        None
    }

    /// Where a fragment for `[address, upper_bound)` can be mounted among the
    /// fragments, or `FragmentIntersection` if it would intersect one of them.
    pub fn find_mount_index(&self, address: u32, upper_bound: u32) -> (r: Result<usize, MountError>)
        requires
            self.valid(),
        ensures
            r is Err <==> intersects_any(self@, address as int, upper_bound as int),
            r matches Err(e) ==> e == MountError::FragmentIntersection,
            r matches Ok(k) ==> is_mount_index(self@, address as int, k as int) && k == mount_index(
                self@,
                address as int,
            ),
    {
        let mut i: usize = 0;
        while i < self.fragments.len()
            invariant
                self.valid(),
                i <= self.fragments@.len(),
                forall|j: int|
                    0 <= j < i ==> (#[trigger] self@[j]).base < address && !self@[j].intersects(
                        address as int,
                        upper_bound as int,
                    ),
            decreases self.fragments@.len() - i,
        {
            let fragment = &self.fragments[i];
            proof {
                assert(self@[i as int] == fragment.mount());
            }
            let fragment_upper = fragment.base + fragment.storage.length();
            if fragment.base >= address {
                if upper_bound > fragment.base {
                    assert(self@[i as int].intersects(address as int, upper_bound as int));
                    return Err(MountError::FragmentIntersection);
                } else {
                    proof {
                        assert forall|j: int| i <= j < self@.len() implies (#[trigger] self@[j]).base
                            >= address && !self@[j].intersects(
                            address as int,
                            upper_bound as int,
                        ) by {
                            if j > i {
                                assert(self@[i as int].upper() <= self@[j].base);
                            }
                        }
                        assert(is_mount_index(self@, address as int, i as int));
                        lemma_mount_index_unique(
                            self@,
                            address as int,
                            i as int,
                            mount_index(self@, address as int),
                        );
                    }
                    return Ok(i);
                }
            } else if fragment_upper > address {
                assert(self@[i as int].intersects(address as int, upper_bound as int));
                return Err(MountError::FragmentIntersection);
            }
            i += 1;
        }
        proof {
            assert(is_mount_index(self@, address as int, i as int));
            lemma_mount_index_unique(
                self@,
                address as int,
                i as int,
                mount_index(self@, address as int),
            );
        }
        Ok(i)
    }

    /// Mounts `fragment` at `address` under `key`. The fragment then has the
    /// addresses from `address` up to, but not including, `address` plus its
    /// length.
    ///
    /// Fails with `KeyAlreadyExists` if a fragment is mounted under `key`.
    /// Otherwise fails with `FragmentIntersection` if the fragment would
    /// reach past the end of the address space or intersect a mounted
    /// fragment. A mount that fails changes nothing.
    pub fn mount(&mut self, address: u32, key: &str, fragment: Box<F>) -> (r: Result<
        (),
        MountError,
    >)
        requires
            old(self).valid(),
            fragment.inv(),
            fragment.image().wf(),
        ensures
            final(self).valid(),
            match mounted(
                old(self)@,
                Mount { base: address, key: key@, image: fragment.image() },
            ) {
                Ok(mounts) => {
                    &&& r is Ok
                    &&& final(self)@ == mounts
                    &&& final(self).storages() == old(self).storages().insert(
                        mount_index(old(self)@, address as int),
                        fragment,
                    )
                },
                Err(e) => {
                    &&& r == Err::<(), MountError>(e)
                    &&& final(self)@ == old(self)@
                    &&& final(self).storages() == old(self).storages()
                },
            },
    {
        let key = key.to_owned();
        if self.find_key(&key).is_some() {
            return Err(MountError::KeyAlreadyExists);
        }
        let upper_bound = match address.checked_add(fragment.length()) {
            Some(upper_bound) => upper_bound,
            None => {
                return Err(MountError::FragmentIntersection);
            },
        };
        let index = match self.find_mount_index(address, upper_bound) {
            Ok(index) => index,
            Err(e) => {
                return Err(e);
            },
        };
        let ghost mount = Mount { base: address, key: key@, image: fragment.image() };
        let piece = Fragment { base: address, key, storage: fragment };
        let ghost pieces = self.fragments@;
        let ghost new_piece = piece;
        self.fragments.insert(index, piece);
        proof {
            let before = old(self)@;
            let after = before.insert(index as int, mount);
            pieces.insert_ensures(index as int, new_piece);
            before.insert_ensures(index as int, mount);
            assert(new_piece.mount() == mount);
            assert forall|i: int| 0 <= i < after.len() implies self@[i] == after[i] by {
                if i < index {
                    assert(self.fragments@[i] == pieces[i]);
                    assert(after[i] == before[i]);
                } else if i > index {
                    assert(self.fragments@[i] == pieces[i - 1]);
                    assert(after[i] == before[i - 1]);
                }
            }
            assert(self@ =~= after);
            old(self).storages().insert_ensures(index as int, new_piece.storage);
            assert(self.storages() =~= old(self).storages().insert(
                index as int,
                new_piece.storage,
            )) by {
                assert forall|i: int| 0 <= i < self.storages().len() implies self.storages()[i]
                    == old(self).storages().insert(index as int, new_piece.storage)[i] by {
                    if i < index {
                        assert(self.fragments@[i] == pieces[i]);
                    } else if i > index {
                        assert(self.fragments@[i] == pieces[i - 1]);
                    }
                }
            }
            assert forall|i: int, j: int| 0 <= i < j < after.len() implies (#[trigger] after[i]).upper()
                <= (#[trigger] after[j]).base && after[i].key != after[j].key by {
                let a = if i < index {
                    i
                } else {
                    i - 1
                };
                let b = if j < index {
                    j
                } else {
                    j - 1
                };
                if i == index {
                    assert(after[j] == before[b]);
                    assert(!before[b].intersects(address as int, upper_bound as int));
                } else if j == index {
                    assert(after[i] == before[a]);
                    assert(!before[a].intersects(address as int, upper_bound as int));
                } else {
                    assert(after[i] == before[a]);
                    assert(after[j] == before[b]);
                }
            }
            assert forall|i: int| 0 <= i < after.len() implies (#[trigger] after[i]).image.wf()
                && after[i].upper() <= u32::MAX by {
                if i < index {
                    assert(after[i] == before[i]);
                } else if i > index {
                    assert(after[i] == before[i - 1]);
                }
            }
            assert forall|i: int| 0 <= i < self.fragments@.len() implies (
            #[trigger] self.fragments@[i]).storage.inv() by {
                if i < index {
                    assert(self.fragments@[i] == pieces[i]);
                } else if i > index {
                    assert(self.fragments@[i] == pieces[i - 1]);
                }
            }
        }
        Ok(())
    }

    /// Unmounts the fragment mounted under `key` and returns it, or returns
    /// `None` if there is none.
    pub fn unmount(&mut self, key: &str) -> (r: Option<Box<F>>)
        requires
            old(self).valid(),
        ensures
            final(self).valid(),
            final(self)@ == unmounted(old(self)@, key@),
            r is Some <==> has_key(old(self)@, key@),
            r matches Some(fragment) ==> {
                let index = key_position(old(self)@, key@);
                &&& fragment == old(self).storages()[index]
                &&& fragment.inv()
                &&& fragment.image() == old(self)@[index].image
                &&& final(self).storages() == old(self).storages().remove(index)
            },
            r is None ==> final(self).storages() == old(self).storages(),
            !has_key(final(self)@, key@),
    {
        let key = key.to_owned();
        match self.find_key(&key) {
            Some(index) => {
                let ghost pieces = self.fragments@;
                let fragment = self.fragments.remove(index);
                proof {
                    let before = old(self)@;
                    let after = before.remove(index as int);
                    pieces.remove_ensures(index as int);
                    before.remove_ensures(index as int);
                    assert(pieces[index as int].storage.inv());
                    assert(before[index as int] == pieces[index as int].mount());
                    assert forall|i: int| 0 <= i < after.len() implies self@[i] == after[i] by {
                        if i < index {
                            assert(self.fragments@[i] == pieces[i]);
                            assert(after[i] == before[i]);
                        } else {
                            assert(self.fragments@[i] == pieces[i + 1]);
                            assert(after[i] == before[i + 1]);
                        }
                    }
                    assert(self@ =~= after);
                    old(self).storages().remove_ensures(index as int);
                    assert(self.storages() =~= old(self).storages().remove(index as int)) by {
                        assert forall|i: int| 0 <= i < self.storages().len() implies self.storages()[i]
                            == old(self).storages().remove(index as int)[i] by {
                            if i < index {
                                assert(self.fragments@[i] == pieces[i]);
                            } else {
                                assert(self.fragments@[i] == pieces[i + 1]);
                            }
                        }
                    }
                    assert forall|i: int| 0 <= i < after.len() implies (#[trigger] after[i])
                        == before[if i < index {
                        i
                    } else {
                        i + 1
                    }] by {}
                    assert forall|i: int, j: int| 0 <= i < j < after.len() implies (
                    #[trigger] after[i]).upper() <= (#[trigger] after[j]).base && after[i].key
                        != after[j].key by {
                        let a = if i < index {
                            i
                        } else {
                            i + 1
                        };
                        let b = if j < index {
                            j
                        } else {
                            j + 1
                        };
                        assert(after[i] == before[a]);
                        assert(after[j] == before[b]);
                    }
                    assert forall|i: int| 0 <= i < self.fragments@.len() implies (
                    #[trigger] self.fragments@[i]).storage.inv() by {
                        if i < index {
                            assert(self.fragments@[i] == pieces[i]);
                        } else {
                            assert(self.fragments@[i] == pieces[i + 1]);
                        }
                    }
                    assert(fragment.mount() == before[index as int]);
                    if has_key(after, key@) {
                        let i = key_position(after, key@);
                        let a = if i < index {
                            i
                        } else {
                            i + 1
                        };
                        assert(after[i] == before[a]);
                        assert(before[a].key == before[index as int].key);
                        if a < index {
                            assert(before[a].key != before[index as int].key);
                        } else {
                            assert(before[index as int].key != before[a].key);
                        }
                    }
                }
                Some(fragment.storage)
            },
            None => None,
        }
    }

    /// The position of the fragment that an access to `address` is handed to:
    /// the last fragment whose base is not above `address`. `None` if
    /// `address` is below every fragment.
    pub fn get_index(&self, address: u32) -> (r: Option<usize>)
        requires
            self.valid(),
        ensures
            r is Some <==> has_location(self@, address as int),
            r matches Some(i) ==> is_located(self@, address as int, i as int) && i == location(
                self@,
                address as int,
            ),
    {
        let mut low: usize = 0;
        let mut high: usize = self.fragments.len();
        while low < high
            invariant
                self.valid(),
                low <= high <= self.fragments@.len(),
                forall|i: int| 0 <= i < low ==> (#[trigger] self@[i]).base <= address,
                forall|i: int| high <= i < self@.len() ==> address < (#[trigger] self@[i]).base,
            decreases high - low,
        {
            let middle = low + (high - low) / 2;
            proof {
                assert(self@[middle as int] == self.fragments@[middle as int].mount());
            }
            if self.fragments[middle].base <= address {
                proof {
                    assert forall|i: int| 0 <= i < middle + 1 implies (#[trigger] self@[i]).base
                        <= address by {
                        if i < middle {
                            assert(self@[i].upper() <= self@[middle as int].base);
                        }
                    }
                }
                low = middle + 1;
            } else {
                proof {
                    assert forall|i: int| middle <= i < self@.len() implies address < (
                    #[trigger] self@[i]).base by {
                        if i > middle {
                            assert(self@[middle as int].upper() <= self@[i].base);
                        }
                    }
                }
                high = middle;
            }
        }
        if low == 0 {
            proof {
                if has_location(self@, address as int) {
                    let i = location(self@, address as int);
                    assert(address < self@[i].base);
                }
            }
            None
        } else {
            proof {
                assert(is_located(self@, address as int, low - 1));
                lemma_location_unique(
                    self@,
                    address as int,
                    low - 1,
                    location(self@, address as int),
                );
            }
            Some(low - 1)
        }
    }

    /// The fragment that an access to `address` is handed to, with the
    /// address inside that fragment.
    fn get_fragment(&self, address: u32) -> (r: Option<(&F, u32)>)
        requires
            self.valid(),
        ensures
            r is Some <==> has_location(self@, address as int),
            r matches Some((fragment, local)) ==> {
                let mount = self@[location(self@, address as int)];
                &&& fragment.inv()
                &&& fragment.image() == mount.image
                &&& mount.image.wf()
                &&& local == address - mount.base
            },
    {
        match self.get_index(address) {
            Some(index) => {
                let fragment = &self.fragments[index];
                proof {
                    assert(self@[index as int] == fragment.mount());
                    assert(self@[index as int].image.wf());
                }
                Some((&*fragment.storage, address - fragment.base))
            },
            None => None,
        }
    }

    /// The fragment that an access to `address` is handed to, for writing,
    /// with the address inside that fragment. What becomes of the fragment
    /// becomes of the composite memory.
    fn get_fragment_mut(&mut self, address: u32) -> (r: Option<(&mut F, u32)>)
        requires
            old(self).valid(),
        ensures
            r is Some <==> has_location(old(self)@, address as int),
            r matches Some((fragment, local)) ==> {
                let index = location(old(self)@, address as int);
                let mount = old(self)@[index];
                &&& fragment.inv()
                &&& fragment.image() == mount.image
                &&& mount.image.wf()
                &&& local == address - mount.base
                &&& final(self)@ == with_image(old(self)@, index, final(fragment).image())
                &&& final(fragment).inv() && mounts_wf(final(self)@) ==> final(self).valid()
            },
            r is None ==> final(self)@ == old(self)@ && final(self).valid(),
    {
        match self.get_index(address) {
            Some(index) => {
                let ghost before = self@;
                let ghost pieces = self.fragments@;
                proof {
                    assert(before[index as int] == pieces[index as int].mount());
                    assert(before[index as int].image.wf());
                    assert(pieces[index as int].storage.inv());
                }
                let fragment = &mut self.fragments[index];
                let local = address - fragment.base;
                let storage = &mut *fragment.storage;
                proof {
                    let after = after_borrow(*self);
                    let image = after.fragments@[index as int].storage.image();
                    assert(after.fragments@[index as int].mount() == Mount {
                        base: before[index as int].base,
                        key: before[index as int].key,
                        image,
                    });
                    assert(after@ =~= with_image(before, index as int, image));
                    assert(image == final(storage).image());
                    assert forall|i: int|
                        final(storage).inv() && 0 <= i < after.fragments@.len() implies (
                    #[trigger] after.fragments@[i]).storage.inv() by {
                        if i != index {
                            assert(after.fragments@[i] == pieces[i]);
                        }
                    }
                }
                Some((storage, local))
            },
            None => None,
        }
    }
}

impl<F: Storage + ?Sized> Storage for CompositeMemory<F> {
    open spec fn image(&self) -> Image {
        composite_image(self@)
    }

    open spec fn inv(&self) -> bool {
        self.valid()
    }

    fn length(&self) -> (n: u32) {
        let count = self.fragments.len();
        if count > 0 {
            let fragment = &self.fragments[count - 1];
            proof {
                assert(self@.last() == fragment.mount());
                assert(self@[count - 1].image.wf());
            }
            fragment.base + fragment.storage.length()
        } else {
            0
        }
    }

    fn check_range(&self, address: u32, length: u32) -> (b: bool) {
        match self.get_fragment(address) {
            Some((fragment, local)) => fragment.check_range(local, length),
            None => false,
        }
    }

    fn borrow_slice(&self, address: u32, length: u32) -> (r: Result<&[u8], ()>) {
        match self.get_fragment(address) {
            Some((fragment, local)) => {
                let r = fragment.borrow_slice(local, length);
                proof {
                    if r is Ok {
                        lemma_window_of_fragment(
                            self@,
                            location(self@, address as int),
                            address,
                            length,
                        );
                    }
                }
                r
            },
            None => Err(()),
        }
    }

    fn borrow_slice_mut(&mut self, address: u32, length: u32) -> (r: Result<&mut [u8], ()>) {
        let ghost before = self@;
        let ghost index = location(before, address as int);
        match self.get_fragment_mut(address) {
            Some((fragment, local)) => {
                let r = fragment.borrow_slice_mut(local, length);
                proof {
                    if r is Ok {
                        lemma_window_of_fragment(before, index, address, length);
                    }
                    assert(r is Ok && final(r->Ok_0)@.len() == length ==> mounts_wf(
                        with_image(before, index, after_borrow(fragment).image()),
                    ) && composite_image(with_image(before, index, after_borrow(fragment).image()))
                        == composite_image(before).replaced(address, final(r->Ok_0)@)) by {
                        let bytes = final(r->Ok_0)@;
                        if r is Ok && bytes.len() == length {
                            lemma_replace_in_fragment(before, index, address, bytes);
                            crate::storage::lemma_replaced_wf(before[index].image, local, bytes);
                            lemma_with_image_wf(
                                before,
                                index,
                                before[index].image.replaced(local, bytes),
                            );
                        }
                    }
                    assert(r is Err ==> with_image(before, index, after_borrow(fragment).image())
                        =~= before);
                    if composite_image(before).direct {
                        assert(before[index].image.direct);
                    }
                }
                r
            },
            None => Err(()),
        }
    }

    fn write(&mut self, address: u32, size: u32, value: u32) -> (r: Result<(), ()>) {
        let ghost before = self@;
        let ghost index = location(before, address as int);
        match self.get_fragment_mut(address) {
            Some((fragment, local)) => {
                let r = fragment.write(local, size, value);
                proof {
                    let image = fragment.image();
                    crate::storage::lemma_stored_wf(before[index].image, local, size, value);
                    lemma_with_image_wf(before, index, image);
                    if image == before[index].image {
                        assert(with_image(before, index, image) =~= before);
                    }
                    if before[index].image.reaches(local, size) {
                        lemma_store_in_fragment(before, index, address, size, value);
                        lemma_window_of_fragment(before, index, address, size);
                    }
                    if composite_image(before).direct {
                        assert(before[index].image.direct);
                    }
                }
                r
            },
            None => Err(()),
        }
    }
}

} // verus!
