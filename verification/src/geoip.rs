//! Public-address resolution results: several third-party lookups race, the
//! first success wins, and total failure degrades to empty addresses rather
//! than an error.

use vstd::prelude::*;

verus! {

/// The agent's resolved public addresses. Ephemeral: recomputed whenever
/// needed, never cached.
#[derive(Clone, PartialEq, Eq, Debug)]
pub struct GeoIp {
    pub ipv4: String,
    pub ipv6: String,
}

impl Default for GeoIp {
    /// Empty addresses: what a lookup degrades to when every provider fails.
    fn default() -> (r: GeoIp)
        ensures
            r.ipv4@.len() == 0,
            r.ipv6@.len() == 0,
    {
        GeoIp { ipv4: String::new(), ipv6: String::new() }
    }
}

/// One provider's answer: a lookup that resolved neither address counts as a
/// failure, anything else succeeds with what it got.
pub fn geo_from_parts(ipv4: String, ipv6: String) -> (r: Option<GeoIp>)
    ensures
        r == if ipv4@.len() == 0 && ipv6@.len() == 0 {
            Option::<GeoIp>::None
        } else {
            (Some(GeoIp { ipv4, ipv6 }))
        },
{
    if ipv4.as_str().is_empty() && ipv6.as_str().is_empty() {
        None
    } else {
        Some(GeoIp { ipv4, ipv6 })
    }
}

/// The first successful result among the racing providers, in the order their
/// answers came back.
pub open spec fn spec_first_some(results: Seq<Option<GeoIp>>) -> Option<GeoIp>
    decreases results.len(),
{
    if results.len() == 0 {
        None
    } else if results[0] is Some {
        results[0]
    } else {
        spec_first_some(results.drop_first())
    }
}

/// Picks the first successful lookup; when every provider failed, the result
/// is the empty default.
pub fn first_success(results: Vec<Option<GeoIp>>) -> (r: GeoIp)
    ensures
        match spec_first_some(results@) {
            Some(g) => r == g,
            None => r.ipv4@.len() == 0 && r.ipv6@.len() == 0,
        },
{
    let n = results.len();
    let mut k: usize = 0;
    proof {
        assert(results@.subrange(0, n as int) =~= results@);
    }
    while k < n && results[k].is_none()
        invariant
            n == results@.len(),
            0 <= k <= n,
            spec_first_some(results@) == spec_first_some(
                results@.subrange(k as int, n as int),
            ),
        decreases n - k,
    {
        proof {
            assert(results@.subrange(k as int, n as int)[0] == results@[k as int]);
            assert(results@.subrange(k as int, n as int).drop_first() =~= results@.subrange(
                k as int + 1,
                n as int,
            ));
        }
        k = k + 1;
    }
    if k < n {
        proof {
            assert(results@.subrange(k as int, n as int)[0] == results@[k as int]);
        }
        let mut owned = results;
        match owned.remove(k) {
            Some(g) => g,
            None => {
                // the scan stopped at a successful entry, so this arm is dead
                proof {
                    assert(false);
                }
                GeoIp { ipv4: String::new(), ipv6: String::new() }
            },
        }
    } else {
        proof {
            assert(results@.subrange(n as int, n as int).len() == 0);
        }
        GeoIp { ipv4: String::new(), ipv6: String::new() }
    }
}

/// Whether a resolved address set is worth sending: an update with both
/// addresses empty is skipped.
pub fn should_send_ip_update(geo: &GeoIp) -> (r: bool)
    ensures
        r == !(geo.ipv4@.len() == 0 && geo.ipv6@.len() == 0),
{
    !(geo.ipv4.as_str().is_empty() && geo.ipv6.as_str().is_empty())
}

} // verus!
