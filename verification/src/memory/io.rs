//! Memory with a handler that is asked before every write and told after it:
//! a bank of device registers.

use crate::storage::{Image, Storage};
use vstd::prelude::*;

verus! {

/// What a device does about writes to its memory.
pub trait IOHandler {
    /// Whether `permitted` is an answer that the handler can give when it is
    /// asked about a write of `size` bytes at `address` to a buffer that holds
    /// `memory`. A handler that says nothing of its answers can give either.
    open spec fn may_answer(&self, memory: Seq<u8>, address: u32, size: u32, permitted: bool) -> bool {
        true
    }

    /// What holds once the handler was told of a write of `size` bytes at
    /// `address` that left `memory` in the buffer. A handler that says
    /// nothing of it leaves this at `true`.
    open spec fn heard(&self, memory: Seq<u8>, address: u32, size: u32) -> bool {
        true
    }

    /// Whether the write of `size` bytes at `address` may go ahead. `memory`
    /// is the buffer before the write.
    fn can_write(&self, memory: &[u8], address: u32, size: u32) -> (permitted: bool)
        ensures
            self.may_answer(memory@, address, size, permitted),
    ;

    /// Called after a write of `size` bytes at `address`. `memory` is the
    /// buffer with the new bytes in place.
    fn on_write(&self, memory: &[u8], address: u32, size: u32)
        ensures
            self.heard(memory@, address, size),
    ;
}

/// What a write to a device memory comes to once the handler has answered
/// `permitted`: the image after it, whether it succeeds, and whether the
/// handler is told of it.
///
/// A write that was not permitted changes nothing, is not notified and still
/// succeeds. A permitted write in range stores the bytes and is notified. A
/// permitted write out of range fails and changes nothing.
pub open spec fn settled(image: Image, permitted: bool, address: u32, size: u32, value: u32) -> (
    Image,
    bool,
    bool,
) {
    if !permitted {
        (image, true, false)
    } else if image.reaches(address, size) {
        (image.stored(address, size, value), true, true)
    } else {
        (image, false, false)
    }
}

/// A write that the handler does not permit leaves the buffer as it was, is
/// not notified and succeeds, in range or not. A write that it permits is
/// notified only after the bytes were stored.
pub proof fn lemma_settled(image: Image, permitted: bool, address: u32, size: u32, value: u32)
    ensures
        !permitted ==> settled(image, permitted, address, size, value) == (image, true, false),
        settled(image, permitted, address, size, value).2 ==> permitted && settled(
            image,
            permitted,
            address,
            size,
            value,
        ).0 == image.stored(address, size, value),
        !settled(image, permitted, address, size, value).1 ==> !image.reaches(address, size),
        image.written(
            address,
            size,
            value,
            settled(image, permitted, address, size, value).0,
            settled(image, permitted, address, size, value).1,
        ) || image.direct,
{
}

/// A buffer of a fixed size whose writes go through a handler.
pub struct IOMemory<H: IOHandler> {
    memory: Vec<u8>,
    handler: H,
}

impl<H: IOHandler> IOMemory<H> {
    /// The bytes of the buffer.
    pub closed spec fn view(&self) -> Seq<u8> {
        self.memory@
    }

    /// The handler that is asked before a write and told after it.
    pub closed spec fn handler(&self) -> H {
        self.handler
    }

    /// A buffer of `size` zero bytes with the handler `handler`.
    pub fn new(size: u32, handler: H) -> (memory: IOMemory<H>)
        ensures
            memory@ == Seq::new(size as nat, |i: int| 0u8),
            memory.handler() == handler,
            memory.inv(),
            memory.image().wf(),
    {
        let memory = IOMemory { memory: vec![0u8; size as usize], handler };
        assert(memory@ =~= Seq::new(size as nat, |i: int| 0u8));
        memory
    }

    /// Carries out a write on which the handler has decided: `permitted` is
    /// its answer. Returns the result of the write and whether the handler is
    /// to be told of it.
    pub fn settle(&mut self, permitted: bool, address: u32, size: u32, value: u32) -> (r: (
        Result<(), ()>,
        bool,
    ))
        requires
            old(self).image().wf(),
        ensures
            final(self).image().wf(),
            final(self).handler() == old(self).handler(),
            (final(self).image(), r.0 is Ok, r.1) == settled(
                old(self).image(),
                permitted,
                address,
                size,
                value,
            ),
    {
        if !permitted {
            return (Ok(()), false);
        }
        assert(self.memory.image() == Image::flat(self@));
        match self.memory.write(address, size, value) {
            Ok(_) => (Ok(()), true),
            Err(_) => (Err(()), false),
        }
    }
}

impl<H: IOHandler> Storage for IOMemory<H> {
    open spec fn image(&self) -> Image {
        Image { cells: self@, windows: Image::flat(self@).windows, direct: false }
    }

    open spec fn inv(&self) -> bool {
        true
    }

    fn length(&self) -> (n: u32) {
        assert(self.memory.image() == Image::flat(self@));
        self.memory.length()
    }

    fn check_range(&self, address: u32, length: u32) -> (b: bool) {
        assert(self.memory.image() == Image::flat(self@));
        self.memory.check_range(address, length)
    }

    fn borrow_slice(&self, address: u32, length: u32) -> (r: Result<&[u8], ()>) {
        assert(self.memory.image() == Image::flat(self@));
        self.memory.borrow_slice(address, length)
    }

    /// The bytes of a window of the buffer itself, or an error if the window
    /// is out of range. The handler is neither asked nor told: it is asked
    /// and told about what `write` does.
    fn borrow_slice_mut(&mut self, address: u32, length: u32) -> (r: Result<&mut [u8], ()>)
        ensures
            r is Ok <==> old(self).image().covers(address, length),
            final(self).handler() == old(self).handler(),
    {
        assert(self.memory.image() == Image::flat(self@));
        self.memory.borrow_slice_mut(address, length)
    }

    /// Asks the handler about the write, carries it out as `settled` says
    /// for the handler's answer, and tells the handler of a write that was
    /// stored, with the new bytes in the buffer.
    fn write(&mut self, address: u32, size: u32, value: u32) -> (r: Result<(), ()>)
        ensures
            final(self).handler() == old(self).handler(),
            exists|permitted: bool|
                {
                    &&& #[trigger] old(self).handler().may_answer(
                        old(self)@,
                        address,
                        size,
                        permitted,
                    )
                    &&& (final(self).image(), r is Ok) == (
                        settled(old(self).image(), permitted, address, size, value).0,
                        settled(old(self).image(), permitted, address, size, value).1,
                    )
                    &&& settled(old(self).image(), permitted, address, size, value).2
                        ==> old(self).handler().heard(final(self)@, address, size)
                },
    {
        let permitted = self.handler.can_write(self.memory.as_slice(), address, size);
        let (result, notify) = self.settle(permitted, address, size, value);
        if notify {
            self.handler.on_write(self.memory.as_slice(), address, size);
        }
        proof {
            assert(old(self).handler().may_answer(old(self)@, address, size, permitted));
        }
        result
    }
}

/// A handler made of two functions.
pub struct DelegateIOHandler<FC, FO> where
    FC: Fn(&[u8], u32, u32) -> bool,
    FO: Fn(&[u8], u32, u32),
 {
    can_write: FC,
    on_write: FO,
}

impl<FC, FO> DelegateIOHandler<FC, FO> where
    FC: Fn(&[u8], u32, u32) -> bool,
    FO: Fn(&[u8], u32, u32),
 {
    /// Both functions can be called on every buffer, address and size.
    #[verifier::type_invariant]
    spec fn callable(&self) -> bool {
        &&& forall|memory: &[u8], address: u32, size: u32|
            call_requires(self.can_write, (memory, address, size))
        &&& forall|memory: &[u8], address: u32, size: u32|
            call_requires(self.on_write, (memory, address, size))
    }

    /// The function that is asked before a write.
    pub closed spec fn asked(&self) -> FC {
        self.can_write
    }

    /// The function that is called after a write.
    pub closed spec fn told(&self) -> FO {
        self.on_write
    }

    /// A handler that asks `can_write` before a write and calls `on_write`
    /// after it.
    pub fn new(can_write: FC, on_write: FO) -> (handler: DelegateIOHandler<FC, FO>)
        requires
            forall|memory: &[u8], address: u32, size: u32|
                call_requires(can_write, (memory, address, size)),
            forall|memory: &[u8], address: u32, size: u32|
                call_requires(on_write, (memory, address, size)),
        ensures
            handler.asked() == can_write,
            handler.told() == on_write,
    {
        DelegateIOHandler { can_write, on_write }
    }
}

impl<FC, FO> IOHandler for DelegateIOHandler<FC, FO> where
    FC: Fn(&[u8], u32, u32) -> bool,
    FO: Fn(&[u8], u32, u32),
 {
    /// An answer that the function asked before a write can give on a
    /// buffer of these bytes.
    open spec fn may_answer(&self, memory: Seq<u8>, address: u32, size: u32, permitted: bool) -> bool {
        exists|buffer: &[u8]|
            buffer@ == memory && #[trigger] call_ensures(
                self.asked(),
                (buffer, address, size),
                permitted,
            )
    }

    /// What the function called after a write ensures on a buffer of these
    /// bytes.
    open spec fn heard(&self, memory: Seq<u8>, address: u32, size: u32) -> bool {
        exists|buffer: &[u8]|
            buffer@ == memory && #[trigger] call_ensures(self.told(), (buffer, address, size), ())
    }

    fn can_write(&self, memory: &[u8], address: u32, size: u32) -> (permitted: bool)
        ensures
            call_ensures(self.asked(), (memory, address, size), permitted),
    {
        proof {
            use_type_invariant(self);
        }
        let permitted = (self.can_write)(memory, address, size);
        assert(call_ensures(self.asked(), (memory, address, size), permitted));
        permitted
    }

    fn on_write(&self, memory: &[u8], address: u32, size: u32)
        ensures
            call_ensures(self.told(), (memory, address, size), ()),
    {
        proof {
            use_type_invariant(self);
        }
        (self.on_write)(memory, address, size);
        assert(call_ensures(self.told(), (memory, address, size), ()));
    }
}

} // verus!
