//! Histogram bin-count rule selection.
//!
//! A request names its binning rule; the name is matched ASCII
//! case-insensitively. Unknown names fall back to the automatic rule, which
//! takes the larger of the Sturges and Freedman-Diaconis estimates and falls
//! back to Scott's rule when that is degenerate. The estimates themselves
//! are numeric and live in the service layer; this module fixes which rule a
//! request selects.

use vstd::prelude::*;
use vstd::string::StringSliceAdditionalSpecFns;
use crate::types::BinRuleOut;

verus! {

/// A histogram bin-count rule.
#[derive(Clone, Copy, Debug, PartialEq, Eq, Structural)]
pub enum BinRule {
    /// Sturges' estimate.
    Sturges,
    /// Scott's estimate.
    Scott,
    /// The Freedman-Diaconis estimate.
    FreedmanDiaconis,
    /// The larger of Sturges and Freedman-Diaconis, with Scott as fallback.
    Auto,
}

/// ASCII lowercasing of one byte.
pub open spec fn lower_byte(b: u8) -> u8 {
    if 65 <= b <= 90 {
        (b + 32) as u8
    } else {
        b
    }
}

/// ASCII lowercasing of a byte string.
pub open spec fn lower_bytes(s: Seq<u8>) -> Seq<u8> {
    s.map_values(|b: u8| lower_byte(b))
}

/// Which rule a name selects, ASCII case-insensitively; anything unknown
/// selects the automatic rule.
pub open spec fn spec_parse_rule(s: Seq<u8>) -> BinRule {
    let l = lower_bytes(s);
    if l == "sturges".spec_bytes() {
        BinRule::Sturges
    } else if l == "scott".spec_bytes() {
        BinRule::Scott
    } else if l == "fd".spec_bytes() || l == "freedmandiaconis".spec_bytes() || l
        == "freedman_diaconis".spec_bytes() {
        BinRule::FreedmanDiaconis
    } else {
        BinRule::Auto
    }
}

/// Whether the lowercased name equals the candidate rule name.
fn bytes_are(s: &Vec<u8>, name: &str) -> (r: bool)
    ensures
        r == (s@ == name.spec_bytes()),
{
    let e = name.as_bytes();
    if s.len() != e.len() {
        return false;
    }
    let mut t: usize = 0;
    while t < s.len()
        invariant
            t <= s@.len(),
            s@.len() == e@.len(),
            e@ == name.spec_bytes(),
            forall|w: int| 0 <= w < t ==> s@[w] == e@[w],
        decreases s.len() - t,
    {
        if s[t] != *vstd::slice::slice_index_get(e, t) {
            return false;
        }
        t += 1;
    }
    proof {
        assert(s@ =~= name.spec_bytes());
    }
    true
}

/// Parses a rule name.
pub fn parse_bin_rule(rule: &str) -> (r: BinRule)
    ensures
        r == spec_parse_rule(rule.spec_bytes()),
{
    let bytes = rule.as_bytes();
    let mut low: Vec<u8> = Vec::new();
    let mut i: usize = 0;
    while i < bytes.len()
        invariant
            i <= bytes@.len(),
            low@.len() == i,
            forall|w: int| 0 <= w < i ==> low@[w] == lower_byte(#[trigger] bytes@[w]),
        decreases bytes.len() - i,
    {
        let x = *vstd::slice::slice_index_get(bytes, i);
        if 65 <= x && x <= 90 {
            low.push(x + 32);
        } else {
            low.push(x);
        }
        i += 1;
    }
    proof {
        assert(low@ =~= lower_bytes(rule.spec_bytes()));
    }
    if bytes_are(&low, "sturges") {
        return BinRule::Sturges;
    }
    if bytes_are(&low, "scott") {
        return BinRule::Scott;
    }
    if bytes_are(&low, "fd") {
        return BinRule::FreedmanDiaconis;
    }
    if bytes_are(&low, "freedmandiaconis") {
        return BinRule::FreedmanDiaconis;
    }
    if bytes_are(&low, "freedman_diaconis") {
        return BinRule::FreedmanDiaconis;
    }
    BinRule::Auto
}

/// The bin count the rule produced, as the response shape.
pub fn bin_rule_output(bins: usize) -> (r: BinRuleOut)
    ensures
        r.bins == bins,
{
    BinRuleOut { bins }
}

} // verus!
