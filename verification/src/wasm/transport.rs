//! The WebTransport path to a guard and its packetization-layer MTU probes.
use vstd::prelude::*;
use vstd::string::{StrSliceExecFns, StringExecFns};

verus! {

pub struct WebTransportConnection {
    pub guard_endpoint: String,
    pub negotiated_mtu_bytes: usize,
    pub is_connected: bool,
}

/// Whether `pat` occurs in `s`.
pub open spec fn contains_chars(s: Seq<char>, pat: Seq<char>) -> bool {
    exists|i: int| 0 <= i && i + pat.len() <= s.len() && #[trigger] s.subrange(i, i + pat.len()) == pat
}

fn str_contains(s: &str, pat: &str) -> (r: bool)
    ensures
        r == contains_chars(s@, pat@),
{
    let n = s.unicode_len();
    let m = pat.unicode_len();
    if m > n {
        proof {
            assert forall|i: int| 0 <= i && i + pat@.len() <= s@.len() implies #[trigger] s@.subrange(i, i + pat@.len()) != pat@ by {}
        }
        return false;
    }
    let mut i: usize = 0;
    while i <= n - m
        invariant
            m <= n,
            n == s@.len(),
            m == pat@.len(),
            forall|k: int| 0 <= k < i ==> #[trigger] s@.subrange(k, k + m) != pat@,
        decreases n - m + 1 - i,
    {
        let mut j: usize = 0;
        let mut same = true;
        while j < m && same
            invariant
                j <= m,
                i + m <= n,
                n == s@.len(),
                m == pat@.len(),
                same == forall|q: int| 0 <= q < j ==> s@[i + q] == pat@[q],
            decreases m - j,
        {
            if s.get_char(i + j) != pat.get_char(j) {
                same = false;
            }
            j = j + 1;
        }
        if same {
            assert(s@.subrange(i as int, i + m) =~= pat@);
            return true;
        }
        assert(s@.subrange(i as int, i + m) != pat@) by {
            let q = choose|q: int| 0 <= q < j && s@[i + q] != pat@[q];
            assert(s@.subrange(i as int, i + m)[q] != pat@[q]);
        }
        i = i + 1;
    }
    proof {
        assert forall|k: int| 0 <= k && k + m <= n implies #[trigger] s@.subrange(k, k + m) != pat@ by {
            assert(k < i);
        }
    }
    false
}

/// The MTU the probes settle on: 1280 bytes, or 1024 on a GRE tunnel path
/// that silently drops larger probes.
pub open spec fn probed_mtu(endpoint: Seq<char>) -> usize {
    if contains_chars(endpoint, "gre-tunnel"@) {
        1024
    } else {
        1280
    }
}

impl WebTransportConnection {
    /// A connection to `endpoint`, not yet probed, at the IPv6 minimum MTU.
    pub fn new(endpoint: &str) -> (r: Self)
        ensures
            r.guard_endpoint@ == endpoint@,
            r.negotiated_mtu_bytes == 1280,
            !r.is_connected,
    {
        Self { guard_endpoint: String::from_str(endpoint), negotiated_mtu_bytes: 1280, is_connected: false }
    }

    /// Tries padding probes of 1280, 1200 and 1024 bytes in turn and keeps
    /// the first one acknowledged.
    pub fn execute_dplpmtud_probes(&mut self) -> (r: Result<usize, String>)
        ensures
            r == Ok::<usize, String>(probed_mtu(old(self).guard_endpoint@)),
            final(self).negotiated_mtu_bytes == probed_mtu(old(self).guard_endpoint@),
            final(self).is_connected,
            final(self).guard_endpoint@ == old(self).guard_endpoint@,
    {
        let gre = str_contains(self.guard_endpoint.as_str(), "gre-tunnel");
        let probe_sizes: [usize; 3] = [1280, 1200, 1024];
        let mut k: usize = 0;
        while k < 3
            invariant
                k <= 3,
                probe_sizes@ == seq![1280usize, 1200, 1024],
                gre == contains_chars(self.guard_endpoint@, "gre-tunnel"@),
                self.guard_endpoint@ == old(self).guard_endpoint@,
                forall|q: int| 0 <= q < k ==> probe_sizes@[q] > 1024 && gre,
            decreases 3 - k,
        {
            let probe_size = probe_sizes[k];
            let ack_received = !(probe_size > 1024 && gre);
            if ack_received {
                self.negotiated_mtu_bytes = probe_size;
                self.is_connected = true;
                assert(k == 0 || k == 2);
                return Ok(probe_size);
            }
            k = k + 1;
        }
        assert(probe_sizes@[2] > 1024);
        Err(String::from_str("DPLPMTUD_FAILED: All MTU padding probes timed out"))
    }
}

} // verus!
