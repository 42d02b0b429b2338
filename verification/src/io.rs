//! Asynchronous input and output: the decisions that nonblocking streams make.
//!
//! The system calls themselves belong to whoever drives the streams. What stands
//! here is what they decide: how a read or a write goes on after each outcome of a
//! call, when a read has come up short, and which waiting promises an event on a
//! file descriptor wakes.

use vstd::prelude::*;
use std::rc::Rc;
use crate::cells::FreeCell;
use crate::handle_table::{Handle, HandleTable};
use crate::{map_results, EventLoop, Promise, PromiseFulfiller};
use crate::private::NodeBox;
use crate::private::promise_node::{transformed, ResultFn, Transform};

verus! {

/// `std::io::Error`, declared so that errors can be carried through promises. Its
/// contents are hidden from the specifications.
#[verifier::external_type_specification]
#[verifier::external_body]
pub struct ExIoError(std::io::Error);

/// Calls `std::io::Error::new` with `std::io::ErrorKind::Other`: an error that
/// carries `message`. Nothing is stated of the error's contents.
#[verifier::external_body]
pub(crate) fn other_error(message: &str) -> std::io::Error {
    std::io::Error::new(std::io::ErrorKind::Other, message)
}

/// `nix::sys::socket::UnixAddr`, declared so that an address for a Unix-domain
/// socket can be held. Its contents are hidden from the specifications.
#[verifier::external_type_specification]
#[verifier::external_body]
pub struct ExUnixAddr(nix::sys::socket::UnixAddr);

/// The length of `sun_path` in a `sockaddr_un` on Linux.
pub const SUN_PATH_LEN: usize = 108;

/// Calls `nix::sys::socket::UnixAddr::new` on `path`, converting nix's error into
/// `std::io::Error`. The call fails exactly when `path` holds a NUL byte
/// (`EINVAL`, from turning it into a C string) or is at least as long as
/// `sun_path` (`ENAMETOOLONG`); the contract states that condition, with Linux's
/// length of `sun_path`. Nothing is stated of the address's contents.
#[verifier::external_body]
fn new_unix_addr(path: &[u8]) -> (r: Result<nix::sys::socket::UnixAddr, std::io::Error>)
    ensures
        r is Ok <==> (path@.len() < SUN_PATH_LEN && !path@.contains(0u8)),
{
    nix::sys::socket::UnixAddr::new(path).map_err(std::io::Error::from)
}

/// The address of a Unix-domain socket bound to a filesystem path.
pub struct UnixSocketAddress {
    addr: nix::sys::socket::UnixAddr,
    path: Vec<u8>,
}

impl UnixSocketAddress {
    /// The path, as bytes.
    pub closed spec fn path(&self) -> Seq<u8> {
        self.path@
    }

    pub fn path_bytes(&self) -> (r: &[u8])
        ensures
            r@ == self.path(),
    {
        self.path.as_slice()
    }

    /// The address in the form the system calls take.
    pub fn unix_addr(&self) -> &nix::sys::socket::UnixAddr {
        &self.addr
    }
}

/// The address of the Unix-domain socket at `path`: an error when the path holds
/// a NUL byte or does not fit in `sun_path`.
pub fn unix_address(path: &[u8]) -> (r: Result<UnixSocketAddress, std::io::Error>)
    ensures
        r is Ok <==> (path@.len() < SUN_PATH_LEN && !path@.contains(0u8)),
        r matches Ok(a) ==> a.path() == path@,
{
    match new_unix_addr(path) {
        Ok(addr) => Ok(UnixSocketAddress { addr, path: vstd::slice::slice_to_vec(path) }),
        Err(e) => Err(e),
    }
}

/// An input/output error, together with the state that the failed operation was
/// handed, so that the caller gets it back.
pub struct Error<S> {
    pub state: S,
    pub error: std::io::Error,
}

impl<S> Error<S> {
    pub fn new(state: S, error: std::io::Error) -> (e: Error<S>)
        ensures
            e.state == state,
            e.error == error,
    {
        Error { state, error }
    }
}

/// A buffer of which only the first `end` bytes are meant.
pub struct Slice<T> {
    pub buf: T,
    pub end: usize,
}

impl<T> Slice<T> {
    pub fn new(buf: T, end: usize) -> (s: Slice<T>)
        ensures
            s.buf == buf,
            s.end == end,
    {
        Slice { buf, end }
    }
}

/// What one nonblocking read or write call gave.
#[derive(PartialEq, Eq, Copy, Clone, Debug, Structural)]
pub enum CallOutcome {
    /// The call moved this many bytes; for a read, zero means end of file.
    Bytes(usize),
    /// The call was interrupted before it moved anything. Like any failure but
    /// `WouldBlock`, it fails the transfer with the call's error.
    Interrupted,
    /// The descriptor is not ready.
    WouldBlock,
    /// The call failed for another reason.
    Failed,
}

/// What a nonblocking transfer does next.
#[derive(PartialEq, Eq, Copy, Clone, Debug, Structural)]
pub enum Step {
    /// Make another call; this many bytes have been moved so far.
    Call(usize),
    /// Wait until the descriptor is ready, then call again; this many bytes have
    /// been moved so far.
    Await(usize),
    /// The transfer is over, having moved this many bytes.
    Finished(usize),
    /// The transfer failed with the call's error.
    Fail,
}

/// The step that a read of at least `min_bytes` takes, having read `already_read`
/// bytes and then got `outcome` from its last call. Reading stops at end of file
/// with what it has; every failed call but one that would block fails the read.
pub fn read_step(already_read: usize, min_bytes: usize, capacity: usize, outcome: CallOutcome) -> (step: Step)
    requires
        already_read < min_bytes,
        min_bytes <= capacity,
        outcome matches CallOutcome::Bytes(n) ==> already_read + n <= capacity,
    ensures
        step == match outcome {
            CallOutcome::Bytes(n) => if n == 0 {
                Step::Finished(already_read)
            } else if already_read + n < min_bytes {
                Step::Call((already_read + n) as usize)
            } else {
                Step::Finished((already_read + n) as usize)
            },
            CallOutcome::Interrupted => Step::Fail,
            CallOutcome::WouldBlock => Step::Await(already_read),
            CallOutcome::Failed => Step::Fail,
        },
{
    match outcome {
        CallOutcome::Bytes(n) => {
            if n == 0 {
                Step::Finished(already_read)
            } else if already_read + n < min_bytes {
                Step::Call(already_read + n)
            } else {
                Step::Finished(already_read + n)
            }
        },
        CallOutcome::Interrupted => Step::Fail,
        CallOutcome::WouldBlock => Step::Await(already_read),
        CallOutcome::Failed => Step::Fail,
    }
}

/// Where a read of at least `min_bytes` starts: done at once when nothing is asked
/// for.
pub fn read_start(min_bytes: usize) -> (step: Step)
    ensures
        step == if min_bytes == 0 { Step::Finished(0) } else { Step::Call(0) },
{
    if min_bytes == 0 {
        Step::Finished(0)
    } else {
        Step::Call(0)
    }
}

/// The step that a write of `len` bytes takes, having written `already_written`
/// bytes and then got `outcome` from its last call; every failed call but one that
/// would block fails the write.
pub fn write_step(already_written: usize, len: usize, outcome: CallOutcome) -> (step: Step)
    requires
        already_written < len,
        outcome matches CallOutcome::Bytes(n) ==> already_written + n <= len,
    ensures
        step == match outcome {
            CallOutcome::Bytes(n) => if already_written + n < len {
                Step::Call((already_written + n) as usize)
            } else {
                Step::Finished(len)
            },
            CallOutcome::Interrupted => Step::Fail,
            CallOutcome::WouldBlock => Step::Await(already_written),
            CallOutcome::Failed => Step::Fail,
        },
{
    match outcome {
        CallOutcome::Bytes(n) => {
            if already_written + n < len {
                Step::Call(already_written + n)
            } else {
                Step::Finished(len)
            }
        },
        CallOutcome::Interrupted => Step::Fail,
        CallOutcome::WouldBlock => Step::Await(already_written),
        CallOutcome::Failed => Step::Fail,
    }
}

/// Where a write of `len` bytes starts: done at once when there is nothing to write.
pub fn write_start(len: usize) -> (step: Step)
    ensures
        step == if len == 0 { Step::Finished(0) } else { Step::Call(0) },
{
    if len == 0 {
        Step::Finished(0)
    } else {
        Step::Call(0)
    }
}

/// The result of a read that asked for at least `min_bytes` and got `n`: the state
/// and the count, or the premature-EOF error carrying the state when fewer came.
pub fn check_read<S>(state: S, n: usize, min_bytes: usize) -> (r: Result<(S, usize), Error<S>>)
    ensures
        n >= min_bytes <==> r is Ok,
        r matches Ok(x) ==> x == (state, n),
        r matches Err(e) ==> e.state == state,
{
    if n < min_bytes {
        Err(Error::new(state, other_error("Premature EOF")))
    } else {
        Ok((state, n))
    }
}

/// A nonblocking input bytestream.
pub trait AsyncRead: Sized + 'static {
    /// Attempts to read `buf.len()` bytes from the stream, writing them into `buf`.
    /// Returns `self`, the modified `buf`, and the number of bytes actually read.
    /// Returns as soon as `min_bytes` are read or EOF is encountered.
    fn try_read<T: AsMut<[u8]> + 'static>(self, buf: T, min_bytes: usize) -> Promise<(Self, T, usize), Error<(Self, T)>>;

    /// Like `try_read()`, but returns an error if EOF is encountered before
    /// `min_bytes` can be read: every value it resolves to counts at least
    /// `min_bytes` bytes.
    fn read<T: AsMut<[u8]> + 'static>(self, buf: T, min_bytes: usize) -> (p: Promise<(Self, T, usize), Error<(Self, T)>>)
        ensures
            forall|x: Result<(Self, T, usize), Error<(Self, T)>>| #[trigger] p.outcomes().contains(x) ==>
                (x matches Ok(v) ==> v.2 >= min_bytes),
    {
        let tried = self.try_read(buf, min_bytes);
        let p = check_reads(tried, min_bytes);
        proof {
            assert forall|x: Result<(Self, T, usize), Error<(Self, T)>>| #[trigger] p.outcomes().contains(x) implies
                (x matches Ok(v) ==> v.2 >= min_bytes) by {
                let check = ShortReadCheck { min_bytes };
                let a = choose|a: Result<(Self, T, usize), Error<(Self, T)>>| tried.outcomes().contains(a) && check.maps(a, x);
                assert(check.maps(a, x));
            }
        }
        p
    }
}

/// `check_read` on the result of `try_read`.
pub fn short_read_check<R, T>(r: (R, T, usize), min_bytes: usize) -> (out: Result<(R, T, usize), Error<(R, T)>>)
    ensures
        r.2 >= min_bytes <==> out is Ok,
        out matches Ok(x) ==> x == r,
        out matches Err(e) ==> e.state == (r.0, r.1),
{
    let (s, buf, n) = r;
    match check_read((s, buf), n, min_bytes) {
        Ok(((s, buf), n)) => Ok((s, buf, n)),
        Err(e) => Err(e),
    }
}

/// The check that `read` applies to what `try_read` gives: a value that counts at
/// least `min_bytes` bytes passes; a shorter one becomes the premature-EOF error,
/// carrying the stream and the buffer; an error passes unchanged.
pub struct ShortReadCheck {
    pub min_bytes: usize,
}

impl<R, T> ResultFn<Result<(R, T, usize), Error<(R, T)>>, Result<(R, T, usize), Error<(R, T)>>> for ShortReadCheck {
    open spec fn callable(&self) -> bool {
        true
    }

    open spec fn maps(&self, a: Result<(R, T, usize), Error<(R, T)>>, b: Result<(R, T, usize), Error<(R, T)>>) -> bool {
        match a {
            Ok(r) => if r.2 >= self.min_bytes {
                b == Ok::<(R, T, usize), Error<(R, T)>>(r)
            } else {
                b matches Err(e) && e.state == (r.0, r.1)
            },
            Err(e) => b == Err::<(R, T, usize), Error<(R, T)>>(e),
        }
    }

    fn call(self, a: Result<(R, T, usize), Error<(R, T)>>) -> Result<(R, T, usize), Error<(R, T)>> {
        match a {
            Ok(r) => short_read_check(r, self.min_bytes),
            Err(e) => Err(e),
        }
    }
}

/// The results of `read` on a stream whose `try_read` may resolve to `tried`.
pub open spec fn checked_reads<R, T>(tried: Set<Result<(R, T, usize), Error<(R, T)>>>, min_bytes: usize) -> Set<Result<(R, T, usize), Error<(R, T)>>> {
    transformed(tried, ShortReadCheck { min_bytes })
}

/// Applies `ShortReadCheck` to the result of `tried`, once it is there.
pub fn check_reads<R: 'static, T: 'static>(tried: Promise<(R, T, usize), Error<(R, T)>>, min_bytes: usize) -> (p: Promise<(R, T, usize), Error<(R, T)>>)
    ensures
        p.outcomes() == checked_reads(tried.outcomes(), min_bytes),
        p.ready() == tried.ready(),
{
    let (node, _slot) = tried.into_parts();
    Promise { node: NodeBox { node: Box::new(Transform::new(node, ShortReadCheck { min_bytes })) }, slot: None }
}

/// A nonblocking output bytestream.
pub trait AsyncWrite: Sized + 'static {
    /// Attempts to write all `buf.len()` bytes from `buf` into the stream. Returns
    /// `self` and `buf` once all of the bytes have been written.
    fn write<T: AsRef<[u8]> + 'static>(self, buf: T) -> Promise<(Self, T), Error<(Self, T)>>;
}

/// Whether an event on a descriptor wakes its reader: data to read, a hang-up or
/// an error.
pub open spec fn wakes_reader(input: bool, hangup: bool, error: bool) -> bool {
    input || hangup || error
}

/// Whether an event on a descriptor wakes its writer: room to write, a hang-up or
/// an error.
pub open spec fn wakes_writer(output: bool, hangup: bool, error: bool) -> bool {
    output || hangup || error
}

/// Who waits on one file descriptor: the fulfillers of the promises returned by
/// `when_becomes_readable` and `when_becomes_writable`.
pub struct FdObserver {
    read_fulfiller: Option<PromiseFulfiller<(), std::io::Error>>,
    write_fulfiller: Option<PromiseFulfiller<(), std::io::Error>>,
}

impl FdObserver {
    /// Whether someone waits for the descriptor to become readable.
    pub closed spec fn awaits_read(&self) -> bool {
        self.read_fulfiller is Some
    }

    /// Whether someone waits for the descriptor to become writable.
    pub closed spec fn awaits_write(&self) -> bool {
        self.write_fulfiller is Some
    }

    pub fn new() -> (o: FdObserver)
        ensures
            !o.awaits_read(),
            !o.awaits_write(),
    {
        FdObserver { read_fulfiller: None, write_fulfiller: None }
    }

    /// A promise fulfilled once the descriptor becomes readable. It replaces the
    /// previous one, which is then rejected as its fulfiller is dropped.
    pub fn when_becomes_readable(&mut self) -> (p: Promise<(), std::io::Error>)
        ensures
            final(self).awaits_read(),
            final(self).awaits_write() == old(self).awaits_write(),
            p.outcomes() == Set::<Result<(), std::io::Error>>::full(),
    {
        let (promise, fulfiller) = Promise::and_fulfiller();
        self.read_fulfiller = Some(fulfiller);
        promise
    }

    /// A promise fulfilled once the descriptor becomes writable. It replaces the
    /// previous one, which is then rejected as its fulfiller is dropped.
    pub fn when_becomes_writable(&mut self) -> (p: Promise<(), std::io::Error>)
        ensures
            final(self).awaits_write(),
            final(self).awaits_read() == old(self).awaits_read(),
            p.outcomes() == Set::<Result<(), std::io::Error>>::full(),
    {
        let (promise, fulfiller) = Promise::and_fulfiller();
        self.write_fulfiller = Some(fulfiller);
        promise
    }

    /// Handles an event on the descriptor: fulfills the reader's promise if the
    /// event wakes readers, and the writer's if it wakes writers. A woken waiter is
    /// forgotten; the other stays.
    pub fn notify(&mut self, input: bool, output: bool, hangup: bool, error: bool)
        ensures
            final(self).awaits_read() == (old(self).awaits_read() && !wakes_reader(input, hangup, error)),
            final(self).awaits_write() == (old(self).awaits_write() && !wakes_writer(output, hangup, error)),
    {
        if input || hangup || error {
            match self.read_fulfiller.take() {
                Some(fulfiller) => fulfiller.fulfill(()),
                None => {},
            }
        }
        if output || hangup || error {
            match self.write_fulfiller.take() {
                Some(fulfiller) => fulfiller.fulfill(()),
                None => {},
            }
        }
    }
}

/// The observers of a reactor's descriptors, by handle.
pub struct Observers {
    table: HandleTable<FdObserver>,
}

impl Observers {
    #[verifier::type_invariant]
    spec fn table_wf(self) -> bool {
        self.table.wf()
    }

    /// The observers' slots, by handle.
    pub closed spec fn slots(&self) -> Seq<Option<FdObserver>> {
        self.table.slots()
    }

    /// The number of observers.
    pub closed spec fn count(&self) -> nat {
        self.table.active()
    }

    pub fn new() -> (o: Observers)
        ensures
            o.slots() == Seq::<Option<FdObserver>>::empty(),
            o.count() == 0,
    {
        Observers { table: HandleTable::new() }
    }

    /// The number of observers.
    pub fn len(&self) -> (n: usize)
        ensures
            n == self.count(),
    {
        self.table.len()
    }

    /// The number of slots, empty ones included.
    pub fn slot_count(&self) -> (n: usize)
        ensures
            n == self.slots().len(),
    {
        self.table.capacity()
    }

    /// Whether `h` names an observer.
    pub fn contains(&self, h: Handle) -> (b: bool)
        ensures
            b == (h.val < self.slots().len() && self.slots()[h.val as int] is Some),
    {
        self.table.is_occupied(h)
    }

    /// Registers a new descriptor: an observer with no waiters, under the lowest
    /// free handle.
    pub fn add(&mut self) -> (h: Handle)
        requires
            old(self).count() < usize::MAX,
            old(self).slots().len() < usize::MAX,
        ensures
            final(self).count() == old(self).count() + 1,
            0 <= h.val < final(self).slots().len(),
            final(self).slots()[h.val as int] matches Some(o) && !o.awaits_read() && !o.awaits_write(),
            old(self).slots().len() <= h.val || old(self).slots()[h.val as int] is None,
    {
        proof {
            use_type_invariant(&*self);
        }
        let mut table = HandleTable::new();
        std::mem::swap(&mut table, &mut self.table);
        let h = table.push(FdObserver::new());
        std::mem::swap(&mut table, &mut self.table);
        h
    }

    /// Forgets the descriptor of `h`, and drops its waiters, whose promises are then
    /// rejected.
    pub fn remove(&mut self, h: Handle)
        requires
            h.val < old(self).slots().len(),
        ensures
            final(self).slots() == old(self).slots().update(h.val as int, None),
            final(self).count() == if old(self).slots()[h.val as int] is Some {
                old(self).count() - 1
            } else {
                old(self).count() as int
            },
    {
        proof {
            use_type_invariant(&*self);
        }
        let mut table = HandleTable::new();
        std::mem::swap(&mut table, &mut self.table);
        let _ = table.remove(h);
        std::mem::swap(&mut table, &mut self.table);
    }

    /// A promise fulfilled once the descriptor of `h` becomes readable.
    pub fn when_readable(&mut self, h: Handle) -> (p: Promise<(), std::io::Error>)
        requires
            old(self).slots().len() > h.val,
            old(self).slots()[h.val as int] is Some,
        ensures
            final(self).count() == old(self).count(),
            final(self).slots().len() == old(self).slots().len(),
            final(self).slots()[h.val as int] matches Some(o) && o.awaits_read(),
    {
        proof {
            use_type_invariant(&*self);
        }
        let mut table = HandleTable::new();
        std::mem::swap(&mut table, &mut self.table);
        let p = table.get_mut(h).when_becomes_readable();
        std::mem::swap(&mut table, &mut self.table);
        p
    }

    /// A promise fulfilled once the descriptor of `h` becomes writable.
    pub fn when_writable(&mut self, h: Handle) -> (p: Promise<(), std::io::Error>)
        requires
            old(self).slots().len() > h.val,
            old(self).slots()[h.val as int] is Some,
        ensures
            final(self).count() == old(self).count(),
            final(self).slots().len() == old(self).slots().len(),
            final(self).slots()[h.val as int] matches Some(o) && o.awaits_write(),
    {
        proof {
            use_type_invariant(&*self);
        }
        let mut table = HandleTable::new();
        std::mem::swap(&mut table, &mut self.table);
        let p = table.get_mut(h).when_becomes_writable();
        std::mem::swap(&mut table, &mut self.table);
        p
    }

    /// Handles an event reported for handle `h`; an event for a handle with no
    /// observer is ignored.
    pub fn dispatch(&mut self, h: Handle, input: bool, output: bool, hangup: bool, error: bool)
        ensures
            final(self).count() == old(self).count(),
            final(self).slots().len() == old(self).slots().len(),
            forall|i: int| 0 <= i < old(self).slots().len() && i != h.val ==> final(self).slots()[i] == old(self).slots()[i],
            forall|i: int| 0 <= i < old(self).slots().len() ==> (final(self).slots()[i] is Some <==> old(self).slots()[i] is Some),
            (h.val < old(self).slots().len() && old(self).slots()[h.val as int] is Some) ==> {
                let o0 = old(self).slots()[h.val as int]->Some_0;
                let o1 = final(self).slots()[h.val as int]->Some_0;
                &&& o1.awaits_read() == (o0.awaits_read() && !wakes_reader(input, hangup, error))
                &&& o1.awaits_write() == (o0.awaits_write() && !wakes_writer(output, hangup, error))
            },
    {
        proof {
            use_type_invariant(&*self);
        }
        if self.table.is_occupied(h) {
            let mut table = HandleTable::new();
            std::mem::swap(&mut table, &mut self.table);
            table.get_mut(h).notify(input, output, hangup, error);
            std::mem::swap(&mut table, &mut self.table);
        }
    }
}

/// The timed-out result.
pub fn timed_out<T>(_elapsed: ()) -> (r: Result<T, std::io::Error>)
    ensures
        r is Err,
{
    Err(other_error("operation timed out"))
}

/// Timeouts on promises. The event port measures the delays: it hands over a
/// promise that resolves once the delay has passed.
pub struct Timer;

impl Timer {
    /// `promise`, unless `delay` resolves first: then the timed-out error, and
    /// `promise` is cancelled.
    pub fn timeout_after_ms<T: 'static>(
        &self,
        event_loop: &EventLoop,
        delay: Promise<(), std::io::Error>,
        promise: Promise<T, std::io::Error>,
    ) -> (p: Promise<T, std::io::Error>)
        ensures
            p.outcomes() == promise.outcomes() + map_results(delay.outcomes(), timed_out::<T>),
            forall|r: Result<T, std::io::Error>| #[trigger] p.outcomes().contains(r) ==> promise.outcomes().contains(r) || r is Err,
    {
        let expired = delay.map(timed_out::<T>);
        promise.exclusive_join(event_loop, expired)
    }
}

/// A stream registered with the event port under `handle`.
pub struct Stream<S> {
    stream: S,
    handle: Handle,
}

impl<S> Stream<S> {
    /// The stream itself.
    pub closed spec fn inner(&self) -> S {
        self.stream
    }

    /// The handle under which the event port observes the stream.
    pub closed spec fn handle_of(&self) -> Handle {
        self.handle
    }

    pub fn new(stream: S, handle: Handle) -> (s: Stream<S>)
        ensures
            s.inner() == stream,
            s.handle_of() == handle,
    {
        Stream { stream, handle }
    }

    pub fn handle(&self) -> (h: Handle)
        ensures
            h == self.handle_of(),
    {
        self.handle
    }

    /// A reader and a writer that share the stream.
    pub fn split(self) -> (r: (Reader<S>, Writer<S>))
        ensures
            r.0.handle_of() == self.handle_of(),
            r.1.handle_of() == self.handle_of(),
    {
        let Stream { stream, handle } = self;
        let shared = Rc::new(FreeCell::new(Some(stream)));
        (Reader { shared: shared.clone(), handle }, Writer { shared, handle })
    }

    pub fn stream(&self) -> (r: &S)
        ensures
            *r == self.inner(),
    {
        &self.stream
    }

    pub fn stream_mut(&mut self) -> (r: &mut S)
        ensures
            *r == old(self).inner(),
            final(self).inner() == *final(r),
            final(self).handle_of() == old(self).handle_of(),
    {
        &mut self.stream
    }
}

/// The reading half of a split stream. While a call is made on the stream, it is
/// taken out of the share, and put back afterwards.
#[verifier::reject_recursive_types(S)]
pub struct Reader<S> {
    shared: Rc<FreeCell<Option<S>>>,
    handle: Handle,
}

/// The writing half of a split stream.
#[verifier::reject_recursive_types(S)]
pub struct Writer<S> {
    shared: Rc<FreeCell<Option<S>>>,
    handle: Handle,
}

impl<S> Reader<S> {
    pub closed spec fn handle_of(&self) -> Handle {
        self.handle
    }

    pub fn handle(&self) -> (h: Handle)
        ensures
            h == self.handle_of(),
    {
        self.handle
    }

    /// Takes the shared stream out, to make a call on it; `None` while the other
    /// half has it.
    pub fn take_stream(&self) -> Option<S> {
        self.shared.replace(None)
    }

    /// Puts the stream back after a call.
    pub fn put_stream(&self, stream: S) {
        let _ = self.shared.replace(Some(stream));
    }
}

impl<S> Writer<S> {
    pub closed spec fn handle_of(&self) -> Handle {
        self.handle
    }

    pub fn handle(&self) -> (h: Handle)
        ensures
            h == self.handle_of(),
    {
        self.handle
    }

    /// Takes the shared stream out, to make a call on it; `None` while the other
    /// half has it.
    pub fn take_stream(&self) -> Option<S> {
        self.shared.replace(None)
    }

    /// Puts the stream back after a call.
    pub fn put_stream(&self, stream: S) {
        let _ = self.shared.replace(Some(stream));
    }
}

} // verus!
