//! Hybrid Logical Clock (HLC) used to stamp transactions.
//!
//! A timestamp packs wall-clock milliseconds and a logical counter into one
//! `u64`:
//!
//! ```text
//! [63..16]  physical milliseconds (48 bits)
//! [15..0]   logical counter (16 bits)
//! ```
//!
//! The clock's decisions are functions of its state, the wall-clock reading
//! and (on receipt) the remote timestamp; `now_at` and `recv_at` take the
//! reading as an argument, `now` and `recv` read the wall clock first.

use vstd::prelude::*;

use crate::clock::unix_time_ms;

verus! {

/// Largest accepted lead of a remote timestamp over the local wall clock.
pub const MAX_DRIFT_MS: u64 = 60_000;

/// The packed form of physical time `p` and logical counter `l`.
pub open spec fn hlc_pack(p: u64, l: u16) -> u64 {
    (p << 16u64) | (l as u64)
}

/// Physical milliseconds of a packed timestamp.
pub open spec fn hlc_physical(x: u64) -> u64 {
    x >> 16u64
}

/// Logical counter of a packed timestamp.
pub open spec fn hlc_logical(x: u64) -> u16 {
    (x & 0xFFFF) as u16
}

/// The state after a local event at wall time `wall`: the wall clock when it
/// has moved past the state's physical time (counter reset), else the next
/// logical tick, carrying into the next millisecond when the counter is full.
pub open spec fn hlc_tick(old: u64, wall: u64) -> u64 {
    if wall > hlc_physical(old) {
        hlc_pack(wall, 0)
    } else if hlc_logical(old) == 0xFFFF {
        hlc_pack((hlc_physical(old) + 1) as u64, 0)
    } else {
        hlc_pack(hlc_physical(old), (hlc_logical(old) + 1) as u16)
    }
}

/// A remote timestamp too far ahead of the wall clock to be trusted.
pub open spec fn hlc_too_far(remote: u64, wall: u64) -> bool {
    hlc_physical(remote) > wall + MAX_DRIFT_MS
}

/// The largest of three values.
pub open spec fn max3(a: u64, b: u64, c: u64) -> u64 {
    if a >= b && a >= c {
        a
    } else if b >= c {
        b
    } else {
        c
    }
}

/// The state after receiving `remote` at wall time `wall` (when it is not
/// too far ahead): the largest physical time of the three, with a logical
/// counter one past the largest counter carried at that time (0 when only
/// the wall clock has it).
pub open spec fn hlc_merge(old: u64, remote: u64, wall: u64) -> u64 {
    let m = max3(hlc_physical(old), hlc_physical(remote), wall);
    let l: int = if m == hlc_physical(old) && m == hlc_physical(remote) {
        if hlc_logical(old) >= hlc_logical(remote) {
            hlc_logical(old) + 1
        } else {
            hlc_logical(remote) + 1
        }
    } else if m == hlc_physical(old) {
        hlc_logical(old) + 1
    } else if m == hlc_physical(remote) {
        hlc_logical(remote) + 1
    } else {
        0
    };
    hlc_pack(m, l as u16)
}

/// The merge never needs a counter past `0xFFFF`.
pub open spec fn hlc_merge_fits(old: u64, remote: u64, wall: u64) -> bool {
    let m = max3(hlc_physical(old), hlc_physical(remote), wall);
    (m == hlc_physical(old) ==> hlc_logical(old) < 0xFFFF) && (m == hlc_physical(remote)
        ==> hlc_logical(remote) < 0xFFFF)
}

/// The state after receiving `remote` at wall time `wall`: a local event
/// when it is too far ahead, else the merge, or, when the merge would need
/// a counter past `0xFFFF`, the millisecond after the largest physical time
/// with a zero counter.
pub open spec fn hlc_recv_spec(old: u64, remote: u64, wall: u64) -> u64 {
    if hlc_too_far(remote, wall) {
        hlc_tick(old, wall)
    } else if hlc_merge_fits(old, remote, wall) {
        hlc_merge(old, remote, wall)
    } else {
        let m = max3(hlc_physical(old), hlc_physical(remote), wall);
        hlc_pack(if m < u64::MAX { (m + 1) as u64 } else { m }, 0)
    }
}

/// Receiving a timestamp that is not too far ahead moves the clock strictly
/// past both its state and the remote timestamp, while times stay below
/// 2^48 - 1 ms.
pub proof fn lemma_hlc_recv_dominates(old: u64, remote: u64, wall: u64)
    ensures
        !hlc_too_far(remote, wall) && wall < 0xFFFF_FFFF_FFFF && hlc_physical(old) < 0xFFFF_FFFF_FFFF
            && hlc_physical(remote) < 0xFFFF_FFFF_FFFF ==> hlc_recv_spec(old, remote, wall) > old
            && hlc_recv_spec(old, remote, wall) > remote,
{
    if !hlc_too_far(remote, wall) && wall < 0xFFFF_FFFF_FFFF && hlc_physical(old) < 0xFFFF_FFFF_FFFF
        && hlc_physical(remote) < 0xFFFF_FFFF_FFFF {
        if hlc_merge_fits(old, remote, wall) {
            lemma_hlc_merge_dominates(old, remote, wall);
        } else {
            let m = max3(hlc_physical(old), hlc_physical(remote), wall);
            let p = (m + 1) as u64;
            lemma_hlc_split(old);
            lemma_hlc_split(remote);
            lemma_hlc_pack_unpack(p, 0);
            lemma_hlc_order(hlc_physical(old), hlc_logical(old), p, 0);
            lemma_hlc_order(hlc_physical(remote), hlc_logical(remote), p, 0);
        }
    }
}

/// The state a clock restored from `persisted` starts in at wall time
/// `wall`: the larger of the persisted state and the wall clock with a zero
/// counter.
pub open spec fn hlc_restore(persisted: u64, wall: u64) -> u64 {
    if persisted > hlc_pack(wall, 0) {
        persisted
    } else {
        hlc_pack(wall, 0)
    }
}

/// A packed HLC timestamp (fits in a `u64` transaction id).
#[derive(Debug, Clone, Copy, PartialEq, Eq, PartialOrd, Ord, Hash)]
pub struct HlcTimestamp(pub u64);

impl HlcTimestamp {
    /// Pack physical milliseconds (their low 48 bits) and a logical counter.
    pub fn new(physical_ms: u64, logical: u16) -> (t: Self)
        ensures
            t.0 == hlc_pack(physical_ms, logical),
    {
        let l = logical as u64;
        assert(l & 0xFFFF == l) by (bit_vector)
            requires
                l == logical as u64,
        ;
        HlcTimestamp((physical_ms << 16u64) | (l & crate::HLC_LOGICAL_MASK))
    }

    /// Physical time component (milliseconds).
    pub fn physical_ms(self) -> (p: u64)
        ensures
            p == hlc_physical(self.0),
    {
        self.0 >> 16u64
    }

    /// Logical counter component.
    pub fn logical(self) -> (l: u16)
        ensures
            l == hlc_logical(self.0),
    {
        (self.0 & crate::HLC_LOGICAL_MASK) as u16
    }

    /// The raw `u64` value (usable as a transaction id).
    pub fn as_u64(self) -> (v: u64)
        ensures
            v == self.0,
    {
        self.0
    }

    /// Reconstruct from a raw `u64` transaction id.
    pub fn from_u64(v: u64) -> (t: Self)
        ensures
            t.0 == v,
    {
        HlcTimestamp(v)
    }

    /// The zero timestamp (a sentinel).
    pub fn zero() -> (t: Self)
        ensures
            t.0 == 0,
    {
        HlcTimestamp(0)
    }

    /// Text form `HLC(<physical>.<logical>)`, both parts in decimal.
    pub fn to_display_string(self) -> (s: String)
        ensures
            s@ == "HLC("@ + crate::text::decimal_nat(hlc_physical(self.0) as nat) + "."@
                + crate::text::decimal_nat(hlc_logical(self.0) as nat) + ")"@,
    {
        let p = crate::text::decimal_u64(self.physical_ms());
        let l = crate::text::decimal_u64(self.logical() as u64);
        let s = crate::codec::concat_str("HLC(".to_string(), p.as_str());
        let s = crate::codec::concat_str(s, ".");
        let s = crate::codec::concat_str(s, l.as_str());
        crate::codec::concat_str(s, ")")
    }
}

/// Packing and unpacking are inverse for physical times below 2^48.
pub proof fn lemma_hlc_pack_unpack(p: u64, l: u16)
    requires
        p < 0x1_0000_0000_0000,
    ensures
        hlc_physical(hlc_pack(p, l)) == p,
        hlc_logical(hlc_pack(p, l)) == l,
{
    assert(((p << 16u64) | (l as u64)) >> 16u64 == p) by (bit_vector)
        requires
            p < 0x1_0000_0000_0000,
    ;
    assert((((p << 16u64) | (l as u64)) & 0xFFFF) as u16 == l) by (bit_vector);
}

/// Every timestamp is the packing of its two components.
pub proof fn lemma_hlc_split(x: u64)
    ensures
        x == hlc_pack(hlc_physical(x), hlc_logical(x)),
        hlc_physical(x) < 0x1_0000_0000_0000,
{
    assert(x == ((x >> 16u64) << 16u64) | (((x & 0xFFFF) as u16) as u64)) by (bit_vector);
    assert(x >> 16u64 < 0x1_0000_0000_0000) by (bit_vector);
}

/// Packed timestamps order by physical time, then by counter.
pub proof fn lemma_hlc_order(p1: u64, l1: u16, p2: u64, l2: u16)
    requires
        p1 < 0x1_0000_0000_0000,
        p2 < 0x1_0000_0000_0000,
    ensures
        (hlc_pack(p1, l1) < hlc_pack(p2, l2)) == (p1 < p2 || (p1 == p2 && l1 < l2)),
{
    assert((((p1 << 16u64) | (l1 as u64)) < ((p2 << 16u64) | (l2 as u64))) == (p1 < p2 || (p1
        == p2 && l1 < l2))) by (bit_vector)
        requires
            p1 < 0x1_0000_0000_0000,
            p2 < 0x1_0000_0000_0000,
    ;
}

/// A local event moves the clock strictly forward and to at least the wall
/// clock, as long as times stay below 2^48 ms (the 48 bits of the layout).
pub proof fn lemma_hlc_tick_advances(old: u64, wall: u64)
    requires
        hlc_physical(old) < 0xFFFF_FFFF_FFFF,
        wall < 0x1_0000_0000_0000,
    ensures
        hlc_tick(old, wall) > old,
        hlc_physical(hlc_tick(old, wall)) >= wall,
{
    let p = hlc_physical(old);
    let l = hlc_logical(old);
    lemma_hlc_split(old);
    if wall > p {
        lemma_hlc_order(p, l, wall, 0);
        lemma_hlc_pack_unpack(wall, 0);
    } else if l == 0xFFFF {
        lemma_hlc_order(p, l, (p + 1) as u64, 0);
        lemma_hlc_pack_unpack((p + 1) as u64, 0);
    } else {
        lemma_hlc_order(p, l, p, (l + 1) as u16);
        lemma_hlc_pack_unpack(p, (l + 1) as u16);
    }
}

/// Receiving a remote timestamp moves the clock strictly past both its own
/// state and the remote timestamp (and to at least the wall clock).
pub proof fn lemma_hlc_merge_dominates(old: u64, remote: u64, wall: u64)
    requires
        wall < 0x1_0000_0000_0000,
        hlc_merge_fits(old, remote, wall),
    ensures
        hlc_merge(old, remote, wall) > old,
        hlc_merge(old, remote, wall) > remote,
        hlc_physical(hlc_merge(old, remote, wall)) >= wall,
{
    let po = hlc_physical(old);
    let lo = hlc_logical(old);
    let pr = hlc_physical(remote);
    let lr = hlc_logical(remote);
    lemma_hlc_split(old);
    lemma_hlc_split(remote);
    let m = max3(po, pr, wall);
    let lv: int = if m == po && m == pr {
        if lo >= lr {
            lo + 1
        } else {
            lr + 1
        }
    } else if m == po {
        lo + 1
    } else if m == pr {
        lr + 1
    } else {
        0
    };
    let l = lv as u16;
    assert(l == lv);
    assert(hlc_merge(old, remote, wall) == hlc_pack(m, l));
    lemma_hlc_pack_unpack(m, l);
    lemma_hlc_order(po, lo, m, l);
    lemma_hlc_order(pr, lr, m, l);
}

/// A restored clock starts at or after the persisted state and at or after
/// the wall clock with a zero counter, so its physical time is at least both
/// physical times (for wall readings below 2^48 ms).
pub proof fn lemma_hlc_restore(persisted: u64, wall: u64)
    requires
        wall < 0x1_0000_0000_0000,
    ensures
        hlc_restore(persisted, wall) >= persisted,
        hlc_restore(persisted, wall) >= hlc_pack(wall, 0),
        hlc_physical(hlc_restore(persisted, wall)) >= hlc_physical(persisted),
        hlc_physical(hlc_restore(persisted, wall)) >= wall,
{
    let r = hlc_restore(persisted, wall);
    let q = hlc_pack(wall, 0);
    lemma_hlc_pack_unpack(wall, 0);
    assert(r >= persisted ==> (r >> 16u64) >= (persisted >> 16u64)) by (bit_vector);
    assert(r >= q ==> (r >> 16u64) >= (q >> 16u64)) by (bit_vector);
}

/// Milliseconds since the Unix epoch from the system clock.
pub fn wall_clock_ms() -> u64 {
    unix_time_ms()
}

/// A Hybrid Logical Clock.
///
/// `now` stamps a local event; `recv` merges a timestamp received from
/// another node so that the result causally follows it.
pub struct HlcClock {
    /// Packed state: physical time in the top 48 bits, counter below.
    state: u64,
}

impl HlcClock {
    /// The packed state.
    pub closed spec fn spec_state(&self) -> u64 {
        self.state
    }

    /// A clock seeded with the wall clock and a zero counter.
    pub fn new() -> (c: Self)
        ensures
            hlc_logical(c.spec_state()) == 0,
    {
        let now_ms = wall_clock_ms();
        let c = HlcClock { state: HlcTimestamp::new(now_ms, 0).as_u64() };
        proof {
            assert(((now_ms << 16u64) | (0u16 as u64)) & 0xFFFF == 0) by (bit_vector);
        }
        c
    }

    /// A clock restored from a persisted state at wall time `wall_ms`.
    pub fn from_persisted_at(persisted: u64, wall_ms: u64) -> (c: Self)
        ensures
            c.spec_state() == hlc_restore(persisted, wall_ms),
            c.spec_state() >= persisted,
    {
        let wall_start = HlcTimestamp::new(wall_ms, 0).as_u64();
        let start = if persisted > wall_start {
            persisted
        } else {
            wall_start
        };
        HlcClock { state: start }
    }

    /// A clock restored from a persisted state (e.g. read from the file
    /// header), never behind the wall clock's physical time.
    pub fn from_persisted(persisted: u64) -> (c: Self)
        ensures
            exists|w: u64| c.spec_state() == hlc_restore(persisted, w),
            c.spec_state() >= persisted,
    {
        let w = wall_clock_ms();
        Self::from_persisted_at(persisted, w)
    }

    /// Stamp a local event at wall time `wall_ms`.
    pub fn now_at(&mut self, wall_ms: u64) -> (t: HlcTimestamp)
        ensures
            t.0 == hlc_tick(old(self).spec_state(), wall_ms),
            final(self).spec_state() == t.0,
    {
        let old_ts = HlcTimestamp::from_u64(self.state);
        let new_ts = if wall_ms > old_ts.physical_ms() {
            HlcTimestamp::new(wall_ms, 0)
        } else if old_ts.logical() == 0xFFFF {
            proof {
                lemma_hlc_split(self.state);
            }
            HlcTimestamp::new(old_ts.physical_ms() + 1, 0)
        } else {
            HlcTimestamp::new(old_ts.physical_ms(), old_ts.logical() + 1)
        };
        self.state = new_ts.as_u64();
        new_ts
    }

    /// Stamp a local event: the result is later than every timestamp this
    /// clock returned before (see `lemma_hlc_tick_advances`).
    pub fn now(&mut self) -> (t: HlcTimestamp)
        ensures
            exists|w: u64| t.0 == hlc_tick(old(self).spec_state(), w),
            final(self).spec_state() == t.0,
    {
        let w = wall_clock_ms();
        self.now_at(w)
    }

    /// Merge a timestamp received from another node at wall time `wall_ms`.
    /// A remote timestamp more than `MAX_DRIFT_MS` ahead of the wall clock
    /// is ignored and a local event is stamped instead.
    pub fn recv_at(&mut self, remote: HlcTimestamp, wall_ms: u64) -> (t: HlcTimestamp)
        requires
            !hlc_too_far(remote.0, wall_ms) ==> hlc_merge_fits(old(self).spec_state(), remote.0, wall_ms),
        ensures
            t.0 == if hlc_too_far(remote.0, wall_ms) {
                hlc_tick(old(self).spec_state(), wall_ms)
            } else {
                hlc_merge(old(self).spec_state(), remote.0, wall_ms)
            },
            final(self).spec_state() == t.0,
    {
        let rp = remote.physical_ms();
        if rp > wall_ms && rp - wall_ms > MAX_DRIFT_MS {
            return self.now_at(wall_ms);
        }
        let old_ts = HlcTimestamp::from_u64(self.state);
        let op = old_ts.physical_ms();
        let ol = old_ts.logical();
        let rl = remote.logical();
        let m = if op >= rp && op >= wall_ms {
            op
        } else if rp >= wall_ms {
            rp
        } else {
            wall_ms
        };
        let l: u16 = if m == op && m == rp {
            if ol >= rl {
                ol + 1
            } else {
                rl + 1
            }
        } else if m == op {
            ol + 1
        } else if m == rp {
            rl + 1
        } else {
            0
        };
        let new_ts = HlcTimestamp::new(m, l);
        self.state = new_ts.as_u64();
        new_ts
    }

    /// Merge a timestamp received from another node at the current wall
    /// time, so that the result follows both it and every earlier local
    /// timestamp (see `lemma_hlc_recv_dominates`). A remote timestamp too
    /// far ahead of the wall clock is ignored and a local event is stamped
    /// instead. When the merge would need a logical counter past `0xFFFF`,
    /// the clock moves to the next millisecond with a zero counter (as a
    /// local event does when its counter runs out).
    pub fn recv(&mut self, remote: HlcTimestamp) -> (t: HlcTimestamp)
        ensures
            final(self).spec_state() == t.0,
            exists|w: u64|
                #![trigger hlc_recv_spec(old(self).spec_state(), remote.0, w)]
                {
                    &&& t.0 == hlc_recv_spec(old(self).spec_state(), remote.0, w)
                    &&& !hlc_too_far(remote.0, w) && w < 0xFFFF_FFFF_FFFF && hlc_physical(
                        old(self).spec_state(),
                    ) < 0xFFFF_FFFF_FFFF && hlc_physical(remote.0) < 0xFFFF_FFFF_FFFF ==> t.0 > old(
                        self,
                    ).spec_state() && t.0 > remote.0
                },
    {
        let w = wall_clock_ms();
        let ghost before = self.state;
        assert(before == old(self).spec_state());
        let rp = remote.physical_ms();
        if rp > w && rp - w > MAX_DRIFT_MS {
            let t = self.now_at(w);
            assert(hlc_too_far(remote.0, w));
            assert(t.0 == hlc_recv_spec(before, remote.0, w));
            return t;
        }
        assert(!hlc_too_far(remote.0, w));
        let old_ts = HlcTimestamp::from_u64(self.state);
        let op = old_ts.physical_ms();
        let m = if op >= rp && op >= w {
            op
        } else if rp >= w {
            rp
        } else {
            w
        };
        let fits = (m != op || old_ts.logical() < 0xFFFF) && (m != rp || remote.logical() < 0xFFFF);
        if !fits {
            assert(!hlc_merge_fits(before, remote.0, w));
            let next = if m < u64::MAX { m + 1 } else { m };
            let t = HlcTimestamp::new(next, 0);
            self.state = t.0;
            proof {
                assert(t.0 == hlc_recv_spec(before, remote.0, w));
                lemma_hlc_recv_dominates(before, remote.0, w);
            }
            return t;
        }
        let t = self.recv_at(remote, w);
        proof {
            assert(hlc_merge_fits(before, remote.0, w));
            assert(t.0 == hlc_recv_spec(before, remote.0, w));
            lemma_hlc_recv_dominates(before, remote.0, w);
        }
        t
    }

    /// The current state (for persisting to the file header).
    pub fn current(&self) -> (t: HlcTimestamp)
        ensures
            t.0 == self.spec_state(),
    {
        HlcTimestamp::from_u64(self.state)
    }

    /// Move the clock forward to at least `min_ts`.
    pub fn advance_to(&mut self, min_ts: HlcTimestamp)
        ensures
            final(self).spec_state() == if old(self).spec_state() >= min_ts.0 {
                old(self).spec_state()
            } else {
                min_ts.0
            },
    {
        if self.state < min_ts.0 {
            self.state = min_ts.0;
        }
    }
}

impl Default for HlcClock {
    fn default() -> (c: Self)
        ensures
            hlc_logical(c.spec_state()) == 0,
    {
        HlcClock::new()
    }
}

/// A plain counter used when the HLC is disabled.
pub struct MonotonicClock {
    counter: u64,
}

impl MonotonicClock {
    /// The counter value.
    pub closed spec fn spec_counter(&self) -> u64 {
        self.counter
    }

    /// A counter seeded with the wall clock shifted into the HLC layout.
    pub fn new() -> (c: Self)
        ensures
            exists|w: u64| c.spec_counter() == w << 16u64,
    {
        let w = wall_clock_ms();
        MonotonicClock { counter: w << 16u64 }
    }

    /// Return the counter and advance it by one (wrapping at `u64::MAX`, as
    /// `fetch_add` does).
    pub fn next(&mut self) -> (v: u64)
        ensures
            v == old(self).spec_counter(),
            final(self).spec_counter() == if v == u64::MAX {
                0
            } else {
                (v + 1) as u64
            },
    {
        let v = self.counter;
        self.counter = if v == u64::MAX {
            0
        } else {
            v + 1
        };
        v
    }

    /// The counter value.
    pub fn current(&self) -> (v: u64)
        ensures
            v == self.spec_counter(),
    {
        self.counter
    }
}

impl Default for MonotonicClock {
    fn default() -> (c: Self)
        ensures
            exists|w: u64| c.spec_counter() == w << 16u64,
    {
        MonotonicClock::new()
    }
}

} // verus!
