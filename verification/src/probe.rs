//! The health probe's decision rules. The GET requests themselves are
//! issued by the caller; this module fixes the probe URL, the attempt
//! budget, and the verdict drawn from the attempts' outcomes.

use vstd::prelude::*;

use crate::digits::spec_dec;

verus! {

/// The verdict over the outcomes of the attempts actually made, in order:
/// a probe with no attempt budget is healthy by definition, and otherwise
/// any one transport-level success within the budget makes it healthy.
pub open spec fn spec_probe_healthy(retry_count: u32, outcomes: Seq<bool>) -> bool {
    retry_count == 0 || exists|i: int| 0 <= i < outcomes.len() && i < retry_count && outcomes[i]
}

/// Decide the probe verdict from the attempt outcomes the caller gathered.
/// `outcomes[i]` is whether attempt `i` completed without transport error;
/// entries beyond `retry_count` are outside the budget and ignored.
pub fn probe_verdict(retry_count: u32, outcomes: &Vec<bool>) -> (r: bool)
    ensures
        r == spec_probe_healthy(retry_count, outcomes@),
{
    if retry_count == 0 {
        return true;
    }
    let mut i: usize = 0;
    while i < outcomes.len()
        invariant
            0 <= i <= outcomes@.len(),
            forall|j: int| 0 <= j < i ==> !(j < retry_count && outcomes@[j]),
        decreases outcomes@.len() - i,
    {
        if (i as u64) < (retry_count as u64) && outcomes[i] {
            return true;
        }
        i = i + 1;
    }
    false
}

/// The URL a probe attempt requests: `http://{host}:{port}{path}`.
pub fn probe_url(host: &str, port: u16, path: &str) -> (r: String)
    ensures
        r@ == "http://"@ + host@ + ":"@ + spec_dec(port as nat) + path@,
{
    let mut s = "http://".to_owned();
    s.append(host);
    s.append(":");
    let p = crate::digits::u64_to_string(port as u64);
    s.append(p.as_str());
    s.append(path);
    s
}

} // verus!
