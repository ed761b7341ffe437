//! The storage contract: what every memory-like object offers the processor,
//! and the flat memories that meet it.

use crate::bytes::{byte_of, le_bytes, le_value, nth_byte, value_of};
use vstd::prelude::*;
use vstd::slice::{slice_subrange, slice_to_vec};

verus! {

/// What a storage object holds, as the contracts see it.
#[verifier::ext_equal]
pub struct Image {
    /// One byte for every address below the total size. An address that no
    /// window reaches holds zero here.
    pub cells: Seq<u8>,
    /// The windows `(address, length)` that lie entirely within bounds.
    pub windows: Set<(nat, nat)>,
    /// Whether every write that is in range takes effect. A storage that may
    /// suppress a write is not direct.
    pub direct: bool,
}

impl Image {
    /// The size fits the address width and no window reaches past it.
    pub open spec fn wf(self) -> bool {
        &&& self.cells.len() <= u32::MAX
        &&& forall|a: nat, l: nat| #[trigger] self.windows.contains((a, l)) ==> a + l <= self.cells.len()
    }

    /// Whether `[address, address + length)` lies entirely within bounds.
    pub open spec fn covers(self, address: u32, length: u32) -> bool {
        self.windows.contains((address as nat, length as nat))
    }

    /// The bytes of a window.
    pub open spec fn window(self, address: u32, length: u32) -> Seq<u8> {
        self.cells.subrange(address as int, address + length)
    }

    /// Whether a value of `size` bytes can be read or written at `address`.
    pub open spec fn reaches(self, address: u32, size: u32) -> bool {
        size <= 4 && self.covers(address, size)
    }

    /// What reading `size` bytes at `address` gives.
    pub open spec fn read(self, address: u32, size: u32) -> Result<u32, ()> {
        if self.reaches(address, size) {
            Ok(le_value(self.window(address, size)))
        } else {
            Err(())
        }
    }

    /// The image after the bytes from `address` on were replaced by `bytes`.
    pub open spec fn replaced(self, address: u32, bytes: Seq<u8>) -> Image {
        Image {
            cells: Seq::new(
                self.cells.len(),
                |i: int|
                    if address <= i < address + bytes.len() {
                        bytes[i - address]
                    } else {
                        self.cells[i]
                    },
            ),
            windows: self.windows,
            direct: self.direct,
        }
    }

    /// The image after the `size` low-order bytes of `value` were stored at
    /// `address` in little-endian order.
    pub open spec fn stored(self, address: u32, size: u32, value: u32) -> Image {
        self.replaced(address, le_bytes(value, size as nat))
    }

    /// Whether a write of the `size` low-order bytes of `value` at `address`
    /// can lead from this image to `after`, succeeding if `ok` and failing
    /// otherwise.
    ///
    /// A write fails only out of range, and then changes nothing. A write
    /// that succeeds has stored the bytes; on a storage that is not direct it
    /// may instead have been suppressed and have changed nothing.
    pub open spec fn written(self, address: u32, size: u32, value: u32, after: Image, ok: bool) -> bool {
        if ok {
            ||| self.reaches(address, size) && after == self.stored(address, size, value)
            ||| !self.direct && after == self
        } else {
            !self.reaches(address, size) && after == self
        }
    }

    /// The image of a flat buffer: every window that ends within the buffer is
    /// in bounds, and every write in range takes effect.
    pub open spec fn flat(bytes: Seq<u8>) -> Image {
        Image {
            cells: bytes,
            windows: Set::new(|w: (nat, nat)| w.0 + w.1 <= bytes.len()),
            direct: true,
        }
    }
}

/// The storage contract: what a memory-like object offers.
pub trait Storage {
    /// What the object holds.
    spec fn image(&self) -> Image;

    /// The object's own invariant.
    spec fn inv(&self) -> bool;

    /// Total addressable size.
    fn length(&self) -> (n: u32)
        requires
            self.inv(),
            self.image().wf(),
        ensures
            n == self.image().cells.len(),
    ;

    /// Whether `[address, address + length)` lies entirely within bounds.
    fn check_range(&self, address: u32, length: u32) -> (b: bool)
        requires
            self.inv(),
            self.image().wf(),
        ensures
            b == self.image().covers(address, length),
    ;

    /// The bytes of a window, or an error if it is out of range.
    fn borrow_slice(&self, address: u32, length: u32) -> (r: Result<&[u8], ()>)
        requires
            self.inv(),
            self.image().wf(),
        ensures
            r is Ok <==> self.image().covers(address, length),
            r matches Ok(s) ==> s@ == self.image().window(address, length),
    ;

    /// The bytes of a window for reading and writing, or an error.
    ///
    /// A direct storage fails only for a window out of range. A storage that
    /// is not direct may refuse for any window. What is written to the bytes
    /// takes their place in the storage.
    fn borrow_slice_mut(&mut self, address: u32, length: u32) -> (r: Result<&mut [u8], ()>)
        requires
            old(self).inv(),
            old(self).image().wf(),
        ensures
            r is Ok ==> old(self).image().covers(address, length),
            old(self).image().direct ==> (r is Ok <==> old(self).image().covers(address, length)),
            r matches Ok(s) ==> {
                &&& s@ == old(self).image().window(address, length)
                &&& final(s)@.len() == length ==> final(self).inv() && final(self).image() == old(
                    self,
                ).image().replaced(address, final(s)@)
            },
            r is Err ==> final(self).inv() && final(self).image() == old(self).image(),
    ;

    /// Reads `size` bytes at `address` as a little-endian value.
    fn read(&self, address: u32, size: u32) -> (r: Result<u32, ()>)
        requires
            self.inv(),
            self.image().wf(),
        ensures
            r == self.image().read(address, size),
    {
        if size > 4 {
            return Err(());
        }
        match self.borrow_slice(address, size) {
            Ok(s) => Ok(value_of(s)),
            Err(_) => Err(()),
        }
    }

    /// Reads the byte at `address`.
    fn read_byte(&self, address: u32) -> (r: Result<u8, ()>)
        requires
            self.inv(),
            self.image().wf(),
        ensures
            r is Ok <==> self.image().covers(address, 1),
            r matches Ok(v) ==> v == self.image().cells[address as int],
    {
        match self.borrow_slice(address, 1) {
            Ok(s) => Ok(s[0]),
            Err(_) => Err(()),
        }
    }

    /// Reads the half word at `address`.
    fn read_half(&self, address: u32) -> (r: Result<u16, ()>)
        requires
            self.inv(),
            self.image().wf(),
        ensures
            r is Ok <==> self.image().covers(address, 2),
            r matches Ok(v) ==> v as u32 == le_value(self.image().window(address, 2)),
    {
        match self.borrow_slice(address, 2) {
            Ok(s) => {
                let v = value_of(s);
                assert(v <= 0xffff) by {
                    let b0 = s@[0];
                    let b1 = s@[1];
                    let z = 0u8;
                    assert(((b0 as u32) | ((b1 as u32) << 8) | ((z as u32) << 16) | ((z as u32)
                        << 24)) <= 0xffff) by (bit_vector)
                        requires
                            z == 0,
                    ;
                }
                Ok(v as u16)
            },
            Err(_) => Err(()),
        }
    }

    /// Reads the word at `address`.
    fn read_word(&self, address: u32) -> (r: Result<u32, ()>)
        requires
            self.inv(),
            self.image().wf(),
        ensures
            r == self.image().read(address, 4),
    {
        self.read(address, 4)
    }

    /// Stores the `size` low-order bytes of `value` at `address` in
    /// little-endian order.
    ///
    /// An error means the window is out of range, and nothing changed.
    /// Success means the bytes were stored, or, for a storage that is not
    /// direct, that the write may have been suppressed and nothing changed.
    fn write(&mut self, address: u32, size: u32, value: u32) -> (r: Result<(), ()>)
        requires
            old(self).inv(),
            old(self).image().wf(),
        ensures
            final(self).inv(),
            old(self).image().written(address, size, value, final(self).image(), r is Ok),
    ;

    /// Stores a byte at `address`.
    fn write_byte(&mut self, address: u32, value: u8) -> (r: Result<(), ()>)
        requires
            old(self).inv(),
            old(self).image().wf(),
        ensures
            final(self).inv(),
            old(self).image().written(address, 1, value as u32, final(self).image(), r is Ok),
    {
        self.write(address, 1, value as u32)
    }

    /// Stores a half word at `address`.
    fn write_half(&mut self, address: u32, value: u16) -> (r: Result<(), ()>)
        requires
            old(self).inv(),
            old(self).image().wf(),
        ensures
            final(self).inv(),
            old(self).image().written(address, 2, value as u32, final(self).image(), r is Ok),
    {
        self.write(address, 2, value as u32)
    }

    /// Stores a word at `address`.
    fn write_word(&mut self, address: u32, value: u32) -> (r: Result<(), ()>)
        requires
            old(self).inv(),
            old(self).image().wf(),
        ensures
            final(self).inv(),
            old(self).image().written(address, 4, value, final(self).image(), r is Ok),
    {
        self.write(address, 4, value)
    }
}

/// Storing into an image keeps its size and its windows, so a well-formed
/// image stays well-formed.
pub proof fn lemma_stored_wf(image: Image, address: u32, size: u32, value: u32)
    requires
        image.wf(),
    ensures
        image.stored(address, size, value).wf(),
        image.stored(address, size, value).cells.len() == image.cells.len(),
        image.stored(address, size, value).windows == image.windows,
        image.stored(address, size, value).direct == image.direct,
{
}

/// After a store in range, reading the same window gives the value cut to
/// the width that was stored.
pub proof fn lemma_read_after_store(image: Image, address: u32, size: u32, value: u32)
    requires
        image.wf(),
        image.reaches(address, size),
    ensures
        image.stored(address, size, value).read(address, size) == Ok::<u32, ()>(
            crate::bytes::low_bytes(value, size as nat),
        ),
{
    let after = image.stored(address, size, value);
    assert(after.window(address, size) =~= crate::bytes::le_bytes(value, size as nat));
    crate::bytes::lemma_le_value_of_le_bytes(value, size as nat);
}

/// A store of one byte puts the low eight bits of the value at the address.
pub proof fn lemma_byte_store_truncates(image: Image, address: u32, value: u32)
    requires
        image.wf(),
        image.reaches(address, 1),
    ensures
        image.stored(address, 1, value).cells[address as int] == (value & 0xff) as u8,
        image.stored(address, 1, value).cells[address as int] == value % 0x100,
{
    assert(image.windows.contains((address as nat, 1nat)));
    assert((value & 0xff) as u8 == value % 0x100) by (bit_vector);
}

/// Replacing bytes in an image keeps its size and its windows, so a
/// well-formed image stays well-formed.
pub proof fn lemma_replaced_wf(image: Image, address: u32, bytes: Seq<u8>)
    requires
        image.wf(),
    ensures
        image.replaced(address, bytes).wf(),
        image.replaced(address, bytes).cells.len() == image.cells.len(),
{
}

/// A store changes no byte outside its window.
pub proof fn lemma_store_elsewhere(image: Image, address: u32, size: u32, value: u32, other: int)
    requires
        0 <= other < image.cells.len(),
        other < address || other >= address + size,
    ensures
        image.stored(address, size, value).cells[other] == image.cells[other],
{
}

impl Storage for [u8] {
    open spec fn image(&self) -> Image {
        Image::flat(vstd::view::View::view(self))
    }

    open spec fn inv(&self) -> bool {
        true
    }

    fn length(&self) -> (n: u32) {
        self.len() as u32
    }

    fn check_range(&self, address: u32, length: u32) -> (b: bool) {
        assert(self.image().covers(address, length) == (address + length <= self.len()));
        address as u64 + length as u64 <= self.len() as u64
    }

    fn borrow_slice(&self, address: u32, length: u32) -> (r: Result<&[u8], ()>) {
        if self.check_range(address, length) {
            Ok(slice_subrange(self, address as usize, address as usize + length as usize))
        } else {
            Err(())
        }
    }

    fn borrow_slice_mut(&mut self, address: u32, length: u32) -> (r: Result<&mut [u8], ()>) {
        if self.check_range(address, length) {
            let (_, rest) = self.split_at_mut(address as usize);
            let (window, _) = rest.split_at_mut(length as usize);
            Ok(window)
        } else {
            Err(())
        }
    }

    fn write(&mut self, address: u32, size: u32, value: u32) -> (r: Result<(), ()>) {
        if size > 4 || !self.check_range(address, size) {
            return Err(());
        }
        let start = address as usize;
        let mut k: u32 = 0;
        while k < size
            invariant
                k <= size <= 4,
                start == address,
                start + size <= self.len(),
                self.len() == old(self).len(),
                forall|i: int|
                    0 <= i < self.len() ==> self[i] == if start <= i < start + k {
                        byte_of(value, i - start)
                    } else {
                        old(self)[i]
                    },
            decreases size - k,
        {
            self[start + k as usize] = nth_byte(value, k);
            k += 1;
        }
        assert(self.image() =~= old(self).image().stored(address, size, value));
        Ok(())
    }
}

impl Storage for Vec<u8> {
    open spec fn image(&self) -> Image {
        Image::flat(vstd::view::View::view(self))
    }

    open spec fn inv(&self) -> bool {
        true
    }

    fn length(&self) -> (n: u32) {
        let bytes = self.as_slice();
        assert(bytes.image() == self.image());
        bytes.length()
    }

    fn check_range(&self, address: u32, length: u32) -> (b: bool) {
        let bytes = self.as_slice();
        assert(bytes.image() == self.image());
        bytes.check_range(address, length)
    }

    fn borrow_slice(&self, address: u32, length: u32) -> (r: Result<&[u8], ()>) {
        let bytes = self.as_slice();
        assert(bytes.image() == self.image());
        bytes.borrow_slice(address, length)
    }

    fn borrow_slice_mut(&mut self, address: u32, length: u32) -> (r: Result<&mut [u8], ()>) {
        let bytes = self.as_mut_slice();
        assert(bytes.image() == old(self).image());
        bytes.borrow_slice_mut(address, length)
    }

    fn write(&mut self, address: u32, size: u32, value: u32) -> (r: Result<(), ()>) {
        let bytes = self.as_mut_slice();
        assert(bytes.image() == old(self).image());
        bytes.write(address, size, value)
    }
}

/// A flat memory of a fixed size.
pub struct Memory {
    bytes: Vec<u8>,
}

impl Memory {
    /// The bytes of the memory.
    pub closed spec fn view(&self) -> Seq<u8> {
        self.bytes@
    }

    /// A memory of `size` zero bytes.
    pub fn new(size: u32) -> (memory: Memory)
        ensures
            memory@ == Seq::new(size as nat, |i: int| 0u8),
            memory.inv(),
            memory.image().wf(),
    {
        let memory = Memory { bytes: vec![0u8; size as usize] };
        assert(memory@ =~= Seq::new(size as nat, |i: int| 0u8));
        memory
    }

    /// A memory that holds a copy of `bytes`, or `None` if they are more than
    /// the address width allows.
    pub fn from_slice(bytes: &[u8]) -> (memory: Option<Memory>)
        ensures
            memory is Some <==> bytes@.len() <= u32::MAX,
            memory matches Some(m) ==> m@ == bytes@ && m.inv() && m.image().wf(),
    {
        if bytes.len() as u64 > u32::MAX as u64 {
            None
        } else {
            Some(Memory { bytes: slice_to_vec(bytes) })
        }
    }

    /// The bytes of the memory.
    pub fn as_slice(&self) -> (bytes: &[u8])
        ensures
            bytes@ == self@,
    {
        self.bytes.as_slice()
    }
}

impl Storage for Memory {
    open spec fn image(&self) -> Image {
        Image::flat(self@)
    }

    open spec fn inv(&self) -> bool {
        true
    }

    fn length(&self) -> (n: u32) {
        assert(self.bytes.image() == self.image());
        self.bytes.length()
    }

    fn check_range(&self, address: u32, length: u32) -> (b: bool) {
        assert(self.bytes.image() == self.image());
        self.bytes.check_range(address, length)
    }

    fn borrow_slice(&self, address: u32, length: u32) -> (r: Result<&[u8], ()>) {
        assert(self.bytes.image() == self.image());
        self.bytes.borrow_slice(address, length)
    }

    fn borrow_slice_mut(&mut self, address: u32, length: u32) -> (r: Result<&mut [u8], ()>) {
        assert(self.bytes.image() == self.image());
        self.bytes.borrow_slice_mut(address, length)
    }

    fn write(&mut self, address: u32, size: u32, value: u32) -> (r: Result<(), ()>) {
        assert(self.bytes.image() == self.image());
        self.bytes.write(address, size, value)
    }
}

} // verus!
