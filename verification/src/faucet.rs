//! The development faucet: off unless the node runs with it, and capped
//! per address over a 24-hour window.

use vstd::prelude::*;
use crate::governance::sat_add_spec;
use crate::rpc::{elapsed, RpcConfig};
use crate::text::{dec, push_dec, str_eq, string_of};

verus! {

/// Amount dripped when the request names none: 100 SEAL in base units.
pub const DEFAULT_DRIP: u64 = 100_000_000_000;

/// Length of the cap window, in milliseconds.
pub const FAUCET_WINDOW_MS: u64 = 86_400_000;

/// Refuses every faucet request unless the node runs with the faucet on.
pub fn check_faucet_enabled(config: &RpcConfig) -> (r: Result<(), (i32, String)>)
    ensures
        r is Ok <==> config.dev_faucet,
        r matches Err((code, msg)) ==> code == -32601 && msg@
            == "seal_faucet disabled (start the node with --dev-faucet)"@,
{
    if !config.dev_faucet {
        return Err((-32601, string_of("seal_faucet disabled (start the node with --dev-faucet)")));
    }
    Ok(())
}

/// The amount to drip: the one requested, else the default.
pub fn drip_amount(requested: Option<u64>) -> (a: u64)
    ensures
        a == match requested {
            Some(x) => x,
            None => DEFAULT_DRIP,
        },
{
    match requested {
        Some(x) => x,
        None => DEFAULT_DRIP,
    }
}

/// What an address drew in its current window.
#[derive(Clone, Debug)]
pub struct DripRecord {
    pub address: String,
    /// Base units drawn since the window started.
    pub used: u64,
    /// Start of the window, in milliseconds on a monotonic clock.
    pub window_start_ms: u64,
}

/// A record as plain values.
pub struct DripView {
    pub address: Seq<char>,
    pub used: u64,
    pub window_start_ms: u64,
}

impl DripRecord {
    pub open spec fn view_of(&self) -> DripView {
        DripView { address: self.address@, used: self.used, window_start_ms: self.window_start_ms }
    }
}

/// At most one record per address.
pub open spec fn drips_unique(d: Seq<DripView>) -> bool {
    forall|i: int, j: int| 0 <= i < j < d.len() ==> (#[trigger] d[i]).address != (#[trigger] d[j]).address
}

/// Whether `address` has a record.
pub open spec fn has_drip(d: Seq<DripView>, address: Seq<char>) -> bool {
    exists|k: int| 0 <= k < d.len() && (#[trigger] d[k]).address == address
}

/// Index of the record of `address` (meaningful when `has_drip`).
pub open spec fn drip_index(d: Seq<DripView>, address: Seq<char>) -> int {
    choose|k: int| 0 <= k < d.len() && (#[trigger] d[k]).address == address
}

/// One request of `amount` by `address` at `now` under `cap`: a new
/// address gets an empty record opened now; a window a day old or more
/// restarts empty; the amount is then added (saturating) and granted
/// when the total stays within the cap. Gives the new records and, for
/// a refusal, what was already drawn in the window.
pub open spec fn drip_step(d: Seq<DripView>, address: Seq<char>, amount: u64, cap: u64, now: u64) -> (
    Seq<DripView>,
    Option<u64>,
) {
    let (d1, k) = if has_drip(d, address) {
        (d, drip_index(d, address))
    } else {
        (d.push(DripView { address, used: 0, window_start_ms: now }), d.len() as int)
    };
    let e = d1[k];
    let fresh = if elapsed(now, e.window_start_ms) >= FAUCET_WINDOW_MS {
        DripView { used: 0, window_start_ms: now, ..e }
    } else {
        e
    };
    let next = sat_add_spec(fresh.used, amount);
    if next > cap {
        (d1.update(k, fresh), Some(fresh.used))
    } else {
        (d1.update(k, DripView { used: next, ..fresh }), None)
    }
}

/// Every address's draws in its current window are within `cap`.
pub open spec fn within_cap(d: Seq<DripView>, cap: u64) -> bool {
    forall|k: int| 0 <= k < d.len() ==> (#[trigger] d[k]).used <= cap
}

/// The faucet keeps every address within its cap: if all draws are
/// within the cap before a request, they are after it, granted or not.
pub proof fn lemma_draws_stay_within_cap(d: Seq<DripView>, address: Seq<char>, amount: u64, cap: u64, now: u64)
    requires
        within_cap(d, cap),
    ensures
        within_cap(drip_step(d, address, amount, cap, now).0, cap),
{
    let d2 = drip_step(d, address, amount, cap, now).0;
    assert forall|k: int| 0 <= k < d2.len() implies (#[trigger] d2[k]).used <= cap by {
        if has_drip(d, address) {
            let i = drip_index(d, address);
            if k != i {
                assert(d2[k] == d[k]);
            }
        } else {
            if k < d.len() {
                assert(d2[k] == d[k]);
            }
        }
    }
}

pub open spec fn msg_faucet_cap(used: u64, cap: u64) -> Seq<char> {
    "faucet cap reached: "@ + dec(used as nat) + " / "@ + dec(cap as nat) + " used in current 24h window"@
}

/// Per-address faucet draws.
pub struct FaucetDrips {
    records: Vec<DripRecord>,
}

impl View for FaucetDrips {
    type V = Seq<DripView>;

    closed spec fn view(&self) -> Seq<DripView> {
        self.records@.map_values(|r: DripRecord| r.view_of())
    }
}

impl FaucetDrips {
    /// No address has drawn yet.
    pub fn new() -> (f: Self)
        ensures
            f@.len() == 0,
            drips_unique(f@),
    {
        let f = FaucetDrips { records: Vec::new() };
        assert(f@ =~= Seq::<DripView>::empty());
        f
    }

    /// Number of addresses with a record.
    pub fn len(&self) -> (n: usize)
        ensures
            n == self@.len(),
    {
        self.records.len()
    }

    fn find(&self, address: &str) -> (r: Option<usize>)
        requires
            drips_unique(self@),
        ensures
            match r {
                Some(k) => k < self@.len() && has_drip(self@, address@) && drip_index(self@, address@) == k,
                None => !has_drip(self@, address@),
            },
    {
        let mut i: usize = 0;
        while i < self.records.len()
            invariant
                drips_unique(self@),
                i <= self@.len(),
                self@.len() == self.records@.len(),
                forall|j: int| 0 <= j < i ==> (#[trigger] self@[j]).address != address@,
            decreases self@.len() - i,
        {
            assert(self@[i as int].address == self.records@[i as int].address@);
            if str_eq(self.records[i].address.as_str(), address) {
                proof {
                    let d = self@;
                    let k = drip_index(d, address@);
                    if k < i {
                        assert(d[k].address != d[i as int].address);
                    } else if k > i {
                        assert(d[i as int].address != d[k].address);
                    }
                }
                return Some(i);
            }
            i = i + 1;
        }
        None
    }

    /// Grants `amount` to `address` at `now_ms` if the address stays
    /// within `cap` over its 24-hour window (see `drip_step`); a refusal
    /// carries code -32000 and what was already drawn.
    pub fn draw(&mut self, address: &str, amount: u64, cap: u64, now_ms: u64) -> (r: Result<(), (i32, String)>)
        requires
            drips_unique(old(self)@),
        ensures
            drips_unique(final(self)@),
            final(self)@ == drip_step(old(self)@, address@, amount, cap, now_ms).0,
            match drip_step(old(self)@, address@, amount, cap, now_ms).1 {
                None => r is Ok,
                Some(used) => r matches Err((code, msg)) && code == -32000 && msg@ == msg_faucet_cap(used, cap),
            },
    {
        let ghost d = self@;
        let k = match self.find(address) {
            Some(k) => k,
            None => {
                self.records.push(DripRecord { address: string_of(address), used: 0, window_start_ms: now_ms });
                proof {
                    let n = self@;
                    assert(n =~= d.push(DripView { address: address@, used: 0, window_start_ms: now_ms }));
                    assert forall|i: int, j: int| 0 <= i < j < n.len() implies (#[trigger] n[i]).address != (
                    #[trigger] n[j]).address by {
                        if j < d.len() {
                            assert(d[i].address != d[j].address);
                        } else {
                            assert(n[i] == d[i]);
                        }
                    }
                }
                self.records.len() - 1
            },
        };
        let ghost d1 = self@;
        let e_used = self.records[k].used;
        let e_start = self.records[k].window_start_ms;
        let (used, start) = if now_ms.saturating_sub(e_start) >= FAUCET_WINDOW_MS {
            (0u64, now_ms)
        } else {
            (e_used, e_start)
        };
        let next = used.saturating_add(amount);
        let granted = next <= cap;
        let new_used = if granted { next } else { used };
        let addr = self.records[k].address.clone();
        self.records.set(k, DripRecord { address: addr, used: new_used, window_start_ms: start });
        proof {
            let n = self@;
            assert(d1[k as int].address == self.records@[k as int].address@);
            assert(n =~= d1.update(k as int, DripView { used: new_used, window_start_ms: start, ..d1[k as int] }));
            assert forall|i: int, j: int| 0 <= i < j < n.len() implies (#[trigger] n[i]).address != (
            #[trigger] n[j]).address by {
                assert(d1[i].address != d1[j].address);
            }
        }
        if !granted {
            let mut msg = string_of("faucet cap reached: ");
            push_dec(&mut msg, used);
            msg.append(" / ");
            push_dec(&mut msg, cap);
            msg.append(" used in current 24h window");
            return Err((-32000, msg));
        }
        Ok(())
    }
}

} // verus!
