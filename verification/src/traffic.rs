//! Traffic accounting: how many bytes went up to and came down from the
//! upstreams through the forwarder.

use vstd::prelude::*;

use crate::text::{is_blank, is_blank_str};

verus! {

/// 2 to the 64th: the counters wrap around at this value, as `AtomicU64::fetch_add` does.
pub open spec fn counter_modulus() -> int {
    0x1_0000_0000_0000_0000
}

/// `a + b`, wrapped around as a 64-bit counter.
pub open spec fn wrap_add(a: u64, b: u64) -> u64 {
    ((a + b) % counter_modulus()) as u64
}

/// The traffic totals as they are stored.
pub struct TrafficSnapshot {
    pub upload_bytes: u64,
    pub download_bytes: u64,
}

impl Clone for TrafficSnapshot {
    fn clone(&self) -> (s: Self)
        ensures
            s == *self,
    {
        TrafficSnapshot { upload_bytes: self.upload_bytes, download_bytes: self.download_bytes }
    }
}

impl Default for TrafficSnapshot {
    fn default() -> (s: Self)
        ensures
            s.upload_bytes == 0,
            s.download_bytes == 0,
    {
        TrafficSnapshot { upload_bytes: 0, download_bytes: 0 }
    }
}

/// The running traffic totals of the forwarder.
pub struct TrafficCounter {
    upload_bytes: u64,
    download_bytes: u64,
}

fn counter_add(a: u64, b: u64) -> (r: u64)
    ensures
        r == wrap_add(a, b),
{
    let r = a.wrapping_add(b);
    proof {
        if a + b > u64::MAX {
            assert((a + b) % counter_modulus() == a + b - counter_modulus()) by {
                vstd::arithmetic::div_mod::lemma_fundamental_div_mod_converse(
                    a + b,
                    counter_modulus(),
                    1,
                    a + b - counter_modulus(),
                );
            }
        } else {
            assert((a + b) % counter_modulus() == a + b) by {
                vstd::arithmetic::div_mod::lemma_small_mod((a + b) as nat, counter_modulus() as nat);
            }
        }
    }
    r
}

impl TrafficCounter {
    pub closed spec fn upload(&self) -> u64 {
        self.upload_bytes
    }

    pub closed spec fn download(&self) -> u64 {
        self.download_bytes
    }

    /// A counter at zero, as the forwarder starts with (it then writes
    /// this zero snapshot to the traffic file).
    pub fn init() -> (c: TrafficCounter)
        ensures
            c.upload() == 0,
            c.download() == 0,
    {
        TrafficCounter { upload_bytes: 0, download_bytes: 0 }
    }

    /// Adds the bytes of one finished connection.
    pub fn add(&mut self, upload_bytes: u64, download_bytes: u64)
        ensures
            final(self).upload() == wrap_add(old(self).upload(), upload_bytes),
            final(self).download() == wrap_add(old(self).download(), download_bytes),
    {
        self.upload_bytes = counter_add(self.upload_bytes, upload_bytes);
        self.download_bytes = counter_add(self.download_bytes, download_bytes);
    }

    /// The current totals.
    pub fn snapshot(&self) -> (s: TrafficSnapshot)
        ensures
            s.upload_bytes == self.upload(),
            s.download_bytes == self.download(),
    {
        TrafficSnapshot { upload_bytes: self.upload_bytes, download_bytes: self.download_bytes }
    }
}

/// The totals that `status` shows: the stored snapshot, or zero when there is
/// none (no traffic file yet).
pub fn read(stored: Option<TrafficSnapshot>) -> (s: TrafficSnapshot)
    ensures
        match stored {
            Some(t) => s == t,
            None => s.upload_bytes == 0 && s.download_bytes == 0,
        },
{
    match stored {
        Some(t) => t,
        None => TrafficSnapshot::default(),
    }
}

/// What a traffic file whose text is blank gives: zero totals; nothing when
/// the text must be parsed.
pub fn blank_traffic(content: &str) -> (r: Option<TrafficSnapshot>)
    ensures
        r is Some <==> is_blank(content@),
        r matches Some(t) ==> t.upload_bytes == 0 && t.download_bytes == 0,
{
    if is_blank_str(content) {
        Some(TrafficSnapshot::default())
    } else {
        None
    }
}

/// Connections that finish in any order leave the same totals: adding `a`
/// then `b` gives what adding `b` then `a` gives, and that is their sum,
/// wrapped around.
pub proof fn law_add_order_free(start: u64, a: u64, b: u64)
    ensures
        wrap_add(wrap_add(start, a), b) == wrap_add(wrap_add(start, b), a),
        wrap_add(wrap_add(start, a), b) == ((start + a + b) % counter_modulus()) as u64,
{
    let m = counter_modulus();
    vstd::arithmetic::div_mod::lemma_add_mod_noop(start + a, b as int, m);
    vstd::arithmetic::div_mod::lemma_add_mod_noop(start + b, a as int, m);
    vstd::arithmetic::div_mod::lemma_mod_twice(b as int, m);
    vstd::arithmetic::div_mod::lemma_mod_twice(a as int, m);
    vstd::arithmetic::div_mod::lemma_small_mod(b as nat, m as nat);
    vstd::arithmetic::div_mod::lemma_small_mod(a as nat, m as nat);
    vstd::arithmetic::div_mod::lemma_mod_pos_bound(start + a, m);
    vstd::arithmetic::div_mod::lemma_mod_pos_bound(start + b, m);
}

} // verus!
