//! A byte buffer of which a committed part is read and rewritten while the
//! rest is filled, and the rules by which readers, a writer and an appender
//! are admitted to it.
//!
//! The rules are a state machine that never waits: a request is granted or
//! found busy, and whoever runs the machine lets a busy caller wait until a
//! guard has been released. Readers take one permit each from a pool, a
//! writer takes the whole pool, and an appender takes a token of its own, so
//! that reading and appending never wait for one another.
use crate::error::CustomErrors;
use vstd::prelude::*;

verus! {

/// A buffer and the number of its bytes that are committed.
pub struct RWAInner {
    data: Box<[u8]>,
    in_use: usize,
}

impl RWAInner {
    /// All bytes of the buffer.
    pub closed spec fn bytes(&self) -> Seq<u8> {
        self.data@
    }

    /// The number of committed bytes.
    pub closed spec fn active_len(&self) -> nat {
        self.in_use as nat
    }

    /// What holds of every buffer: no more bytes are committed than it has.
    pub open spec fn wf(&self) -> bool {
        self.active_len() <= self.bytes().len()
    }

    /// A buffer of which the first `in_use` bytes are committed.
    pub fn new(data: Box<[u8]>, in_use: usize) -> (inner: Self)
        requires
            in_use <= data@.len(),
        ensures
            inner.wf(),
            inner.bytes() == data@,
            inner.active_len() == in_use,
    {
        RWAInner { data, in_use }
    }

    /// The committed bytes.
    pub fn active_data(&self) -> (active: &[u8])
        requires
            self.wf(),
        ensures
            active@ == self.bytes().subrange(0, self.active_len() as int),
    {
        vstd::slice::slice_subrange(&self.data, 0, self.in_use)
    }

    /// The committed bytes, to be rewritten in place.
    pub fn active_data_mut(&mut self) -> (active: &mut [u8])
        requires
            old(self).wf(),
        ensures
            active@ == old(self).bytes().subrange(0, old(self).active_len() as int),
            final(self).bytes() == final(active)@ + old(self).bytes().subrange(
                old(self).active_len() as int,
                old(self).bytes().len() as int,
            ),
            final(self).active_len() == old(self).active_len(),
    {
        let (active, _) = self.data.split_at_mut(self.in_use);
        active
    }

    /// The bytes that are not committed, to be filled, and the number of
    /// committed bytes, to be raised by as many as were filled.
    pub fn reserve_data_mut(&mut self) -> (r: (&mut [u8], &mut usize))
        requires
            old(self).wf(),
        ensures
            r.0@ == old(self).bytes().subrange(
                old(self).active_len() as int,
                old(self).bytes().len() as int,
            ),
            *r.1 == old(self).active_len(),
            final(self).bytes() == old(self).bytes().subrange(0, old(self).active_len() as int)
                + final(r.0)@,
            final(self).active_len() == *final(r.1),
    {
        let at = self.in_use;
        let (_, reserve) = self.data.split_at_mut(at);
        (reserve, &mut self.in_use)
    }

    /// The number of committed bytes.
    pub fn in_use(&self) -> (n: usize)
        ensures
            n == self.active_len(),
    {
        self.in_use
    }

    /// The number of bytes of the buffer.
    pub fn capacity(&self) -> (n: usize)
        ensures
            n == self.bytes().len(),
    {
        self.data.len()
    }

    /// Commits `appended` more bytes: they were filled and are now read.
    pub fn commit(&mut self, appended: usize)
        requires
            old(self).active_len() + appended <= old(self).bytes().len(),
        ensures
            final(self).wf(),
            final(self).bytes() == old(self).bytes(),
            final(self).active_len() == old(self).active_len() + appended,
    {
        assert(self.data@.len() == self.data.len());
        self.in_use += appended;
    }
}

/// `tokio::sync::Semaphore::MAX_PERMITS`: the most permits that a semaphore
/// holds, `usize::MAX >> 3`.
#[verifier::external_body]
fn semaphore_max_permits() -> (n: usize)
    ensures
        n == usize::MAX / 8,
{
    tokio::sync::Semaphore::MAX_PERMITS
}

/// The right to read the committed bytes, together with other readers.
pub struct RWAReadGuard {
    permits: u32,
}

/// The right to rewrite the committed bytes, alone.
pub struct RWAWriteGuard {
    permits: u32,
}

/// The right to fill the bytes that are not committed, and to commit those
/// that were filled when the guard is released.
pub struct RWAAppendGuard {
    data_appended: usize,
}

impl RWAAppendGuard {
    /// The number of bytes that the appender has reported as filled.
    pub closed spec fn appended(&self) -> nat {
        self.data_appended as nat
    }

    /// Reports `n` more bytes as filled; they are committed when the guard
    /// is released. A report that cannot be counted is refused.
    pub fn report(&mut self, n: usize) -> (counted: bool)
        ensures
            counted <==> old(self).appended() + n <= usize::MAX,
            counted ==> final(self).appended() == old(self).appended() + n,
            !counted ==> final(self).appended() == old(self).appended(),
    {
        match self.data_appended.checked_add(n) {
            Some(sum) => {
                self.data_appended = sum;
                true
            },
            None => false,
        }
    }
}

/// A buffer shared by readers, a writer and an appender, with what is held
/// of it at the moment.
pub struct RWABuffer {
    num_permits: u32,
    available: u32,
    writing: bool,
    appending: bool,
    closed: bool,
    data: RWAInner,
}

impl RWABuffer {
    /// The number of permits in the pool of readers and writer.
    pub closed spec fn permits(&self) -> nat {
        self.num_permits as nat
    }

    /// The number of read guards held.
    pub closed spec fn readers(&self) -> nat {
        if self.writing {
            0
        } else {
            (self.num_permits - self.available) as nat
        }
    }

    /// Whether the write guard is held.
    pub closed spec fn writing(&self) -> bool {
        self.writing
    }

    /// Whether the append guard is held.
    pub closed spec fn appending(&self) -> bool {
        self.appending
    }

    /// Whether the pool was shut down: no read or write guard is granted any
    /// more.
    pub closed spec fn is_closed(&self) -> bool {
        self.closed
    }

    /// The buffer and its committed length.
    pub closed spec fn inner(&self) -> RWAInner {
        self.data
    }

    /// What holds of the guards of every buffer: a writer holds the whole
    /// pool and excludes readers and the appender.
    pub closed spec fn guards_wf(&self) -> bool {
        &&& self.available <= self.num_permits
        &&& self.writing ==> self.available == 0 && !self.appending
    }

    /// What holds of every buffer: of its guards, and of its bytes.
    pub open spec fn wf(&self) -> bool {
        self.guards_wf() && self.inner().wf()
    }

    /// Whether a request for a read guard is granted: the pool is open, the
    /// writer does not hold it, and a permit is left.
    pub open spec fn admits_read(&self) -> bool {
        !self.is_closed() && !self.writing() && self.readers() < self.permits()
    }

    /// Whether a request for the write guard is granted: the pool is open
    /// and no guard at all is held.
    pub open spec fn admits_write(&self) -> bool {
        !self.is_closed() && !self.writing() && !self.appending() && self.readers() == 0
    }

    /// Whether a request for the append guard is granted: neither an
    /// appender nor the writer holds the buffer.
    pub open spec fn admits_append(&self) -> bool {
        !self.appending() && !self.writing()
    }

    /// A buffer of which the first `in_use` bytes are committed, with no
    /// guard held. The pool has as many permits as a semaphore holds at
    /// most, or as a `u32` counts where that is less.
    pub fn new(buffer: Box<[u8]>, in_use: usize) -> (shared: Self)
        requires
            in_use <= buffer@.len(),
        ensures
            shared.wf(),
            shared.permits() == vstd::math::min((usize::MAX / 8) as int, u32::MAX as int),
            shared.readers() == 0,
            !shared.writing(),
            !shared.appending(),
            !shared.is_closed(),
            shared.inner().bytes() == buffer@,
            shared.inner().active_len() == in_use,
    {
        let most = semaphore_max_permits();
        let max_permits: u32 = if most > u32::MAX as usize {
            u32::MAX
        } else {
            most as u32
        };
        RWABuffer {
            num_permits: max_permits,
            available: max_permits,
            writing: false,
            appending: false,
            closed: false,
            data: RWAInner::new(buffer, in_use),
        }
    }

    /// The number of permits in the pool of readers and writer.
    pub fn num_permits(&self) -> (n: u32)
        ensures
            n == self.permits(),
    {
        self.num_permits
    }

    /// Shuts the pool down: what is held stays held, and no read or write
    /// guard is granted from now on.
    pub fn close(&mut self)
        requires
            old(self).wf(),
        ensures
            final(self).wf(),
            final(self).is_closed(),
            final(self).permits() == old(self).permits(),
            final(self).readers() == old(self).readers(),
            final(self).writing() == old(self).writing(),
            final(self).appending() == old(self).appending(),
            final(self).inner() == old(self).inner(),
    {
        self.closed = true;
    }

    /// Asks for a read guard. It is granted unless the writer holds the
    /// pool or every permit is out: neither readers nor the appender stand
    /// in its way. `None` tells the caller to wait. After the pool was shut
    /// down the request fails.
    pub fn read(&mut self) -> (r: Result<Option<RWAReadGuard>, CustomErrors>)
        requires
            old(self).wf(),
        ensures
            final(self).wf(),
            r is Err <==> old(self).is_closed(),
            r matches Err(e) ==> is_closed_error(e),
            r matches Ok(Some(_)) <==> old(self).admits_read(),
            r matches Ok(Some(_)) ==> final(self).readers() == old(self).readers() + 1,
            !(r matches Ok(Some(_))) ==> final(self).readers() == old(self).readers(),
            final(self).permits() == old(self).permits(),
            final(self).writing() == old(self).writing(),
            final(self).appending() == old(self).appending(),
            final(self).is_closed() == old(self).is_closed(),
            final(self).inner() == old(self).inner(),
    {
        if self.closed {
            return Err(closed_error());
        }
        if self.available == 0 {
            return Ok(None);
        }
        self.available -= 1;
        Ok(Some(RWAReadGuard { permits: 1 }))
    }

    /// Asks for the write guard. It is granted where no guard at all is
    /// held: it takes every permit of the pool, and it does not share the
    /// buffer with the appender. `None` tells the caller to wait. After the
    /// pool was shut down the request fails.
    pub fn write(&mut self) -> (r: Result<Option<RWAWriteGuard>, CustomErrors>)
        requires
            old(self).wf(),
        ensures
            final(self).wf(),
            r is Err <==> old(self).is_closed(),
            r matches Err(e) ==> is_closed_error(e),
            r matches Ok(Some(_)) <==> old(self).admits_write(),
            final(self).writing() == (old(self).writing() || r matches Ok(Some(_))),
            final(self).permits() == old(self).permits(),
            final(self).readers() == old(self).readers(),
            final(self).appending() == old(self).appending(),
            final(self).is_closed() == old(self).is_closed(),
            final(self).inner() == old(self).inner(),
    {
        if self.closed {
            return Err(closed_error());
        }
        if self.writing || self.appending || self.available != self.num_permits {
            return Ok(None);
        }
        self.available = 0;
        self.writing = true;
        Ok(Some(RWAWriteGuard { permits: self.num_permits }))
    }

    /// Asks for the append guard. It is granted unless an appender or the
    /// writer holds the buffer: readers do not stand in its way, and the
    /// token that it takes is not of the pool, so that it is granted after
    /// the pool was shut down too. `None` tells the caller to wait.
    pub fn append(&mut self) -> (r: Result<Option<RWAAppendGuard>, CustomErrors>)
        requires
            old(self).wf(),
        ensures
            final(self).wf(),
            r is Ok,
            r matches Ok(Some(_)) <==> old(self).admits_append(),
            r matches Ok(Some(guard)) ==> guard.appended() == 0,
            final(self).appending() == (old(self).appending() || r matches Ok(Some(_))),
            final(self).permits() == old(self).permits(),
            final(self).readers() == old(self).readers(),
            final(self).writing() == old(self).writing(),
            final(self).is_closed() == old(self).is_closed(),
            final(self).inner() == old(self).inner(),
    {
        if self.appending || self.writing {
            return Ok(None);
        }
        self.appending = true;
        Ok(Some(RWAAppendGuard { data_appended: 0 }))
    }

    /// Gives a read guard back: one reader less.
    pub fn release_read(&mut self, guard: RWAReadGuard)
        requires
            old(self).wf(),
            old(self).readers() >= 1,
        ensures
            final(self).wf(),
            final(self).readers() == old(self).readers() - 1,
            final(self).permits() == old(self).permits(),
            final(self).writing() == old(self).writing(),
            final(self).appending() == old(self).appending(),
            final(self).is_closed() == old(self).is_closed(),
            final(self).inner() == old(self).inner(),
    {
        self.available += 1;
    }

    /// Gives the write guard back: the pool is whole again.
    pub fn release_write(&mut self, guard: RWAWriteGuard)
        requires
            old(self).wf(),
            old(self).writing(),
        ensures
            final(self).wf(),
            !final(self).writing(),
            final(self).readers() == 0,
            final(self).permits() == old(self).permits(),
            final(self).appending() == old(self).appending(),
            final(self).is_closed() == old(self).is_closed(),
            final(self).inner() == old(self).inner(),
    {
        self.available = self.num_permits;
        self.writing = false;
    }

    /// Gives the append guard back, and commits as many bytes as the
    /// appender reported: only now do readers see them.
    pub fn release_append(&mut self, guard: RWAAppendGuard)
        requires
            old(self).wf(),
            old(self).appending(),
            old(self).inner().active_len() + guard.appended() <= old(self).inner().bytes().len(),
        ensures
            final(self).wf(),
            !final(self).appending(),
            final(self).inner().bytes() == old(self).inner().bytes(),
            final(self).inner().active_len() == old(self).inner().active_len() + guard.appended(),
            final(self).permits() == old(self).permits(),
            final(self).readers() == old(self).readers(),
            final(self).writing() == old(self).writing(),
            final(self).is_closed() == old(self).is_closed(),
    {
        self.data.commit(guard.data_appended);
        self.appending = false;
    }

    /// The committed bytes, as a reader sees them.
    pub fn read_data(&self, guard: &RWAReadGuard) -> (active: &[u8])
        requires
            self.wf(),
            self.readers() >= 1,
        ensures
            active@ == self.inner().bytes().subrange(0, self.inner().active_len() as int),
    {
        self.data.active_data()
    }

    /// The committed bytes, for the writer to rewrite in place.
    pub fn write_data(&mut self, guard: &RWAWriteGuard) -> (active: &mut [u8])
        requires
            old(self).wf(),
            old(self).writing(),
        ensures
            active@ == old(self).inner().bytes().subrange(
                0,
                old(self).inner().active_len() as int,
            ),
            final(self).inner().bytes() == final(active)@ + old(self).inner().bytes().subrange(
                old(self).inner().active_len() as int,
                old(self).inner().bytes().len() as int,
            ),
            final(self).inner().active_len() == old(self).inner().active_len(),
            final(self).guards_wf(),
            final(self).permits() == old(self).permits(),
            final(self).readers() == old(self).readers(),
            final(self).writing() == old(self).writing(),
            final(self).appending() == old(self).appending(),
            final(self).is_closed() == old(self).is_closed(),
    {
        self.data.active_data_mut()
    }

    /// The bytes that are not committed, for the appender to fill.
    pub fn append_data(&mut self, guard: &RWAAppendGuard) -> (reserve: &mut [u8])
        requires
            old(self).wf(),
            old(self).appending(),
        ensures
            reserve@ == old(self).inner().bytes().subrange(
                old(self).inner().active_len() as int,
                old(self).inner().bytes().len() as int,
            ),
            final(self).inner().bytes() == old(self).inner().bytes().subrange(
                0,
                old(self).inner().active_len() as int,
            ) + final(reserve)@,
            final(self).inner().active_len() == old(self).inner().active_len(),
            final(self).guards_wf(),
            final(self).permits() == old(self).permits(),
            final(self).readers() == old(self).readers(),
            final(self).writing() == old(self).writing(),
            final(self).appending() == old(self).appending(),
            final(self).is_closed() == old(self).is_closed(),
    {
        let (reserve, _) = self.data.reserve_data_mut();
        reserve
    }

    /// The number of committed bytes.
    pub fn in_use(&self) -> (n: usize)
        ensures
            n == self.inner().active_len(),
    {
        self.data.in_use()
    }
}

/// Readers do not wait for one another: granting one a guard leaves the
/// next one admitted as long as a permit is left.
pub proof fn lemma_reads_share(before: RWABuffer, after: RWABuffer)
    requires
        before.admits_read(),
        after.readers() == before.readers() + 1,
        after.readers() < after.permits(),
        after.permits() == before.permits(),
        after.writing() == before.writing(),
        after.is_closed() == before.is_closed(),
    ensures
        after.admits_read(),
{
}

/// A reader and the appender do not wait for one another: whether a read
/// guard is granted does not depend on the append guard being held, and
/// whether the append guard is granted does not depend on the readers.
pub proof fn lemma_read_and_append_apart(a: RWABuffer, b: RWABuffer)
    requires
        a.permits() == b.permits(),
        a.writing() == b.writing(),
        a.is_closed() == b.is_closed(),
    ensures
        a.readers() == b.readers() ==> a.admits_read() == b.admits_read(),
        a.appending() == b.appending() ==> a.admits_append() == b.admits_append(),
{
}

/// The writer is alone: while it holds the buffer no guard is granted, and
/// while a reader or the appender holds one the writer's is not.
pub proof fn lemma_write_excludes(shared: RWABuffer)
    requires
        shared.wf(),
    ensures
        shared.writing() ==> !shared.admits_read() && !shared.admits_append()
            && !shared.admits_write(),
        shared.writing() ==> shared.readers() == 0 && !shared.appending(),
        shared.readers() >= 1 || shared.appending() ==> !shared.admits_write(),
{
}

/// Whether `error` says that the pool was shut down.
pub open spec fn is_closed_error(error: CustomErrors) -> bool {
    error matches CustomErrors::InvalidState(text) && text@ == "semaphore closed"@
}

/// The error of a request to a pool that was shut down.
fn closed_error() -> (error: CustomErrors)
    ensures
        is_closed_error(error),
{
    CustomErrors::InvalidState("semaphore closed".to_owned())
}

} // verus!
