//! Keeping the real-time clock in step with an NTP server.
use vstd::prelude::*;

verus! {

/// Microseconds in a second.
pub const USEC_IN_SEC: u64 = 1_000_000;

/// The UDP port of NTP servers.
pub const NTP_PORT: u16 = 123;

/// Seconds to wait before looking the server up again when the DNS found no address.
pub const RESOLVE_RETRY_SECS: u64 = 10;

/// Seconds between two synchronisations.
pub const SYNC_INTERVAL_SECS: u64 = 600;

/// The whole seconds in a time of `us` microseconds.
pub open spec fn seconds_of(us: u64) -> int {
    us as int / USEC_IN_SEC as int
}

/// The microseconds past the whole second in a time of `us` microseconds.
pub open spec fn subsec_micros_of(us: u64) -> int {
    us as int % USEC_IN_SEC as int
}

/// The microseconds that an NTP fraction of a second (in units of 2^-32 s) stands for, rounded down.
pub open spec fn fraction_micros(fraction: u32) -> int {
    (fraction as int * USEC_IN_SEC as int) / 0x1_0000_0000
}

/// The microseconds since the Unix epoch of an NTP answer of `sec` seconds and `fraction`.
pub open spec fn ntp_micros(sec: u64, fraction: u32) -> int {
    sec as int * USEC_IN_SEC as int + fraction_micros(fraction)
}

/// The local time, read from the real-time clock, that an NTP request is stamped with.
#[derive(Debug, Clone, Copy, PartialEq, Eq, Structural)]
pub struct Timestamp {
    /// Microseconds since the Unix epoch.
    pub current_time_us: u64,
}

impl Timestamp {
    /// The whole seconds since the Unix epoch.
    pub fn timestamp_sec(&self) -> (r: u64)
        ensures
            r == seconds_of(self.current_time_us),
    {
        self.current_time_us / USEC_IN_SEC
    }

    /// The microseconds past the whole second.
    pub fn timestamp_subsec_micros(&self) -> (r: u32)
        ensures
            r == subsec_micros_of(self.current_time_us),
    {
        (self.current_time_us % USEC_IN_SEC) as u32
    }
}

proof fn lemma_shift_is_division(x: u64)
    by (bit_vector)
    ensures
        x >> 32u64 == x / 0x1_0000_0000u64,
{
}

/// The time to set the clock to after an NTP answer of `sec` seconds since
/// the Unix epoch and `fraction` of a second, in microseconds.
pub fn ntp_time_to_micros(sec: u64, fraction: u32) -> (r: u64)
    requires
        ntp_micros(sec, fraction) <= u64::MAX,
    ensures
        r == ntp_micros(sec, fraction),
{
    let scaled: u64 = fraction as u64 * USEC_IN_SEC;
    proof {
        lemma_shift_is_division(scaled);
        assert(0 <= fraction_micros(fraction)) by (nonlinear_arith)
            requires
                fraction >= 0,
        ;
    }
    sec * USEC_IN_SEC + (scaled >> 32)
}

/// A clock set from an NTP answer reads back the answer's seconds, and the
/// microseconds its fraction stands for.
pub proof fn law_clock_reads_back_ntp_time(sec: u64, fraction: u32)
    requires
        ntp_micros(sec, fraction) <= u64::MAX,
    ensures
        seconds_of(ntp_micros(sec, fraction) as u64) == sec,
        subsec_micros_of(ntp_micros(sec, fraction) as u64) == fraction_micros(fraction),
        0 <= fraction_micros(fraction) < USEC_IN_SEC,
{
    assert(0 <= fraction_micros(fraction) < 1_000_000) by (nonlinear_arith)
        requires
            0 <= fraction < 0x1_0000_0000,
    ;
    let us = ntp_micros(sec, fraction);
    assert(us / 1_000_000 == sec && us % 1_000_000 == fraction_micros(fraction)) by (nonlinear_arith)
        requires
            us == sec * 1_000_000 + fraction_micros(fraction),
            0 <= fraction_micros(fraction) < 1_000_000,
            sec >= 0,
    ;
}

/// The seconds and the microseconds past them make up the whole time again.
pub proof fn law_timestamp_parts_recombine(t: Timestamp)
    ensures
        seconds_of(t.current_time_us) * USEC_IN_SEC + subsec_micros_of(t.current_time_us)
            == t.current_time_us,
        0 <= subsec_micros_of(t.current_time_us) < USEC_IN_SEC,
{
}

/// What the synchronisation loop does next.
#[derive(Debug, Clone, Copy)]
pub enum NtpAction {
    /// Wait this many seconds, then look the server up again.
    RetryResolve { delay_secs: u64 },
    /// Ask this server for the time.
    Query { server: [u8; 4], port: u16 },
    /// Set the clock to this many microseconds since the Unix epoch, then wait
    /// this many seconds before the next query.
    SetClock { micros: u64, next_query_secs: u64 },
    /// Start over: wait for the network and look the server up again.
    Resolve,
}

/// The state of the synchronisation loop: the server it asks, once it has one.
pub struct NtpSync {
    server: Option<[u8; 4]>,
}

impl NtpSync {
    /// The server being asked, if the lookup found one.
    pub closed spec fn server(&self) -> Option<[u8; 4]> {
        self.server
    }

    /// A loop that has not looked the server up yet.
    pub fn new() -> (r: Self)
        ensures
            r.server() is None,
    {
        NtpSync { server: None }
    }

    /// After the lookup of the server's name: ask the first address found, or
    /// retry the lookup later when there is none.
    pub fn on_resolved(&mut self, addresses: &[[u8; 4]]) -> (action: NtpAction)
        ensures
            addresses@.len() == 0 ==> (final(self).server() is None),
            addresses@.len() == 0 ==> action == (NtpAction::RetryResolve {
                delay_secs: RESOLVE_RETRY_SECS,
            }),
            addresses@.len() > 0 ==> final(self).server() == Some(addresses@[0]),
            addresses@.len() > 0 ==> action == (NtpAction::Query {
                server: addresses@[0],
                port: NTP_PORT,
            }),
    {
        if addresses.len() == 0 {
            self.server = None;
            NtpAction::RetryResolve { delay_secs: RESOLVE_RETRY_SECS }
        } else {
            self.server = Some(addresses[0]);
            NtpAction::Query { server: addresses[0], port: NTP_PORT }
        }
    }

    /// After a query: set the clock from the answer (`Some((seconds, fraction))`)
    /// and query again later, or, when the query failed, start over.
    pub fn on_answer(&mut self, answer: Option<(u64, u32)>) -> (action: NtpAction)
        requires
            answer matches Some((sec, fraction)) ==> ntp_micros(sec, fraction) <= u64::MAX,
        ensures
            answer matches Some((sec, fraction)) ==> final(self).server() == old(self).server()
                && action == (NtpAction::SetClock {
                    micros: ntp_micros(sec, fraction) as u64,
                    next_query_secs: SYNC_INTERVAL_SECS,
                }),
            answer is None ==> (final(self).server() is None),
            answer is None ==> action == NtpAction::Resolve,
    {
        match answer {
            Some((sec, fraction)) => NtpAction::SetClock {
                micros: ntp_time_to_micros(sec, fraction),
                next_query_secs: SYNC_INTERVAL_SECS,
            },
            None => {
                self.server = None;
                NtpAction::Resolve
            },
        }
    }

    /// The next query to the server found by the last lookup.
    pub fn next_query(&self) -> (action: NtpAction)
        requires
            self.server() is Some,
        ensures
            action == (NtpAction::Query { server: self.server()->0, port: NTP_PORT }),
    {
        match self.server {
            Some(server) => NtpAction::Query { server, port: NTP_PORT },
            None => NtpAction::Resolve,
        }
    }
}

} // verus!
