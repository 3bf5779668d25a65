use vstd::prelude::*;

verus! {

/// The operation code that adds a source to an event queue.
pub const EPOLL_CTL_ADD: i32 = 1;

/// Interest bit: the source is readable (bit 0).
pub const EPOLLIN: i32 = 0x1;

/// Interest bit: edge-triggered notification (bit 31, the sign bit of an `i32`).
pub const EPOLLET: i32 = i32::MIN;

/// Interest bit: report one event, then disable the source (bit 30).
pub const EPOLLONESHOT: i32 = 0x4000_0000;

/// The buffer size that a wait uses when it is handed a buffer without capacity.
pub const MIN_EVENTS: usize = 10;

/// One readiness event: the interest bits that fired and the token of the source.
///
/// The bits are kept exactly as the OS reports them.
pub struct Event {
    pub events: u32,
    pub epoll_data: usize,
}

impl Event {
    /// The event that registers interest `interests` under `token`.
    pub fn new(token: usize, interests: i32) -> (e: Event)
        ensures
            e.events == interests as u32,
            e.epoll_data == token,
    {
        Event { events: interests as u32, epoll_data: token }
    }

    /// The token of the source that the event is about.
    pub fn token(&self) -> (t: usize)
        ensures
            t == self.epoll_data,
    {
        self.epoll_data
    }
}

/// The interests that a bitmask names.
pub struct Interests {
    pub read: bool,
    pub edge_triggered: bool,
    pub oneshot: bool,
}

/// Bit `k` of `mask`, as a truth value.
pub open spec fn bit_set(mask: i32, k: nat) -> bool {
    (mask as u32 as nat / vstd::arithmetic::power2::pow2(k)) % 2 == 1
}

/// Reads the readable, edge-triggered and one-shot bits of an interest bitmask.
pub fn check(bitmask: i32) -> (r: Interests)
    ensures
        r.read == bit_set(bitmask, 0),
        r.edge_triggered == bit_set(bitmask, 31),
        r.oneshot == bit_set(bitmask, 30),
{
    let read = bitmask & EPOLLIN != 0;
    let edge_triggered = bitmask & EPOLLET != 0;
    let oneshot = bitmask & EPOLLONESHOT != 0;
    proof {
        let u = bitmask as u32;
        vstd::arithmetic::power2::lemma2_to64();
        vstd::arithmetic::power2::lemma2_to64_rest();
        assert((bitmask & 0x1 != 0) == ((u / 1) % 2 == 1)) by (bit_vector)
            requires u == bitmask as u32;
        assert((bitmask & i32::MIN != 0) == ((u / 0x8000_0000) % 2 == 1)) by (bit_vector)
            requires u == bitmask as u32;
        assert((bitmask & 0x4000_0000 != 0) == ((u / 0x4000_0000) % 2 == 1)) by (bit_vector)
            requires u == bitmask as u32;
    }
    Interests { read, edge_triggered, oneshot }
}

/// A failed readiness system call; the OS error code says why.
pub struct OsError;

/// A handle through which sources are registered with one event queue.
pub struct Registry {
    raw_fd: i32,
}

impl Registry {
    /// The descriptor of the event queue.
    pub closed spec fn fd(&self) -> i32 {
        self.raw_fd
    }

    /// The event queue's descriptor, which the registration call is made on.
    pub fn raw_fd(&self) -> (fd: i32)
        ensures
            fd == self.fd(),
    {
        self.raw_fd
    }

    /// Checks the result of the add-registration call: a negative result is a failure.
    pub fn check_register(res: i32) -> (r: Result<(), OsError>)
        ensures
            r is Ok <==> res >= 0,
    {
        if res < 0 {
            Err(OsError)
        } else {
            Ok(())
        }
    }
}

/// An event queue: owns the descriptor of one OS readiness multiplexer.
pub struct Poll {
    registry: Registry,
}

impl Poll {
    /// The descriptor of the event queue.
    pub closed spec fn fd(&self) -> i32 {
        self.registry.raw_fd
    }

    /// The event queue for the result of the create call: a descriptor, or a failure when
    /// the result is negative.
    pub fn from_create_result(res: i32) -> (r: Result<Poll, OsError>)
        ensures
            r is Ok <==> res >= 0,
            r matches Ok(p) ==> p.fd() == res,
    {
        if res < 0 {
            Err(OsError)
        } else {
            Ok(Poll { registry: Registry { raw_fd: res } })
        }
    }

    /// The handle for registering sources with this queue.
    pub fn registry(&self) -> (r: &Registry)
        ensures
            r.fd() == self.fd(),
    {
        &self.registry
    }

    /// How many events one wait may report for a buffer of `capacity` events: the capacity
    /// itself, or `MIN_EVENTS` for a buffer without capacity (which the caller reserves
    /// first); never more than an `i32` holds.
    pub fn wait_capacity(capacity: usize) -> (max_events: i32)
        ensures
            max_events > 0,
            capacity == 0 ==> max_events == MIN_EVENTS,
            0 < capacity <= i32::MAX ==> max_events == capacity,
            capacity > i32::MAX ==> max_events == i32::MAX,
    {
        if capacity == 0 {
            MIN_EVENTS as i32
        } else if capacity > i32::MAX as usize {
            i32::MAX
        } else {
            capacity as i32
        }
    }

    /// The timeout argument of a wait: `-1` (no limit) for `None`.
    pub fn wait_timeout(timeout: Option<i32>) -> (t: i32)
        ensures
            timeout is None ==> t == -1,
            timeout matches Some(ms) ==> t == ms,
    {
        match timeout {
            Some(ms) => ms,
            None => -1,
        }
    }

    /// The number of events that a wait filled in, from the wait call's result: a negative
    /// result is a failure, and so is a count beyond `max_events`, which the OS never gives.
    /// A count of 0 (a timeout or a spurious wake) is no failure.
    pub fn wait_result(res: i32, max_events: i32) -> (r: Result<usize, OsError>)
        ensures
            r is Ok <==> 0 <= res <= max_events,
            r matches Ok(n) ==> n == res,
    {
        if res < 0 || res > max_events {
            Err(OsError)
        } else {
            Ok(res as usize)
        }
    }
}

} // verus!
