use vstd::prelude::*;

verus! {

pub open spec fn min_nat(a: nat, b: nat) -> nat {
    if a <= b {
        a
    } else {
        b
    }
}

/// The Levenshtein distance between two character sequences: the least
/// number of single-character insertions, deletions and substitutions
/// that turns one into the other, by the standard recurrence on prefixes.
pub open spec fn edit_dist(a: Seq<char>, b: Seq<char>) -> nat
    decreases a.len() + b.len(),
{
    if a.len() == 0 {
        b.len()
    } else if b.len() == 0 {
        a.len()
    } else {
        let deletion = edit_dist(a.drop_last(), b) + 1;
        let insertion = edit_dist(a, b.drop_last()) + 1;
        let substitution = edit_dist(a.drop_last(), b.drop_last()) + (if a.last() == b.last() {
            0nat
        } else {
            1nat
        });
        min_nat(deletion, min_nat(insertion, substitution))
    }
}

/// The length of the longer of the two sequences.
pub open spec fn longer_len(a: Seq<char>, b: Seq<char>) -> nat {
    if a.len() >= b.len() {
        a.len()
    } else {
        b.len()
    }
}

/// The normalized-distance rule: the edit distance between the two words,
/// taken as a fraction of the longer length, is at most the threshold
/// given in thousandths.
pub open spec fn within_distance(a: Seq<char>, b: Seq<char>, threshold_milli: u32) -> bool {
    edit_dist(a, b) * 1000 <= (threshold_milli as nat) * longer_len(a, b)
}

/// Relies on edit_distance::edit_distance: the Levenshtein distance
/// between the two strings, computed over their characters.
#[verifier::external_body]
fn levenshtein(a: &str, b: &str) -> (r: usize)
    ensures
        r == edit_dist(a@, b@),
{
    edit_distance::edit_distance(a, b)
}

/// Decides the normalized-distance rule for one pair of words.
pub fn within_distance_exec(a: &str, b: &str, threshold_milli: u32) -> (r: bool)
    ensures
        r == within_distance(a@, b@, threshold_milli),
{
    let d = levenshtein(a, b);
    let la = a.unicode_len();
    let lb = b.unicode_len();
    let longer = if la >= lb {
        la
    } else {
        lb
    };
    let lhs: u128 = (d as u128) * 1000;
    let t: u128 = threshold_milli as u128;
    let lo: u128 = longer as u128;
    proof {
        assert(t * lo <= 0xFFFF_FFFF * 0xFFFF_FFFF_FFFF_FFFF) by (nonlinear_arith)
            requires
                t <= 0xFFFF_FFFF,
                lo <= 0xFFFF_FFFF_FFFF_FFFF,
        ;
    }
    let rhs: u128 = t * lo;
    lhs <= rhs
}

} // verus!
