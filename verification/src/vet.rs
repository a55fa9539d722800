//! The last check before a batch is handed to the catalog: every identifier
//! must parse into the catalog's strict form.

use crate::ids::{check_track_uri, track_uri_fault, IdFault};
use vstd::prelude::*;

verus! {

/// An identifier that the strict check refused, by its position.
#[derive(Clone, Copy, Debug, PartialEq, Eq, Structural)]
pub struct Refusal {
    pub index: usize,
    pub fault: IdFault,
}

/// Position of the first finding that is a fault, or the number of findings
/// when none is.
pub open spec fn first_fault_position(findings: Seq<Option<IdFault>>) -> nat
    decreases findings.len(),
{
    if findings.len() == 0 || findings[0] is Some {
        0
    } else {
        1 + first_fault_position(findings.drop_first())
    }
}

/// The first fault among the findings with its position, if there is one.
pub open spec fn first_refusal(findings: Seq<Option<IdFault>>) -> Option<(nat, IdFault)> {
    let at = first_fault_position(findings);
    if at < findings.len() && findings[at as int] is Some {
        Some((at, findings[at as int]->0))
    } else {
        None
    }
}

/// What the strict check finds for each of `items`.
pub open spec fn strict_findings(items: Seq<Seq<char>>) -> Seq<Option<IdFault>> {
    items.map_values(|t: Seq<char>| track_uri_fault(t))
}

/// The position found holds a fault, and no finding before it does.
pub proof fn lemma_first_fault_position(findings: Seq<Option<IdFault>>)
    ensures
        first_fault_position(findings) <= findings.len(),
        first_fault_position(findings) < findings.len() ==> findings[first_fault_position(
            findings,
        ) as int] is Some,
        forall|j: int| 0 <= j < first_fault_position(findings) ==> (#[trigger] findings[j]) is None,
    decreases findings.len(),
{
    if findings.len() > 0 && findings[0] is None {
        let rest = findings.drop_first();
        lemma_first_fault_position(rest);
        let k = first_fault_position(rest) as int;
        assert forall|j: int| 0 <= j < k + 1 implies (#[trigger] findings[j]) is None by {
            if j > 0 {
                assert(rest[j - 1] == findings[j]);
            }
        }
    }
}

/// Picks the first fault out of the findings of a batch.
///
/// A batch is refused as a whole on its first fault; `None` means that every
/// identifier passed.
pub fn first_fault(findings: &Vec<Option<IdFault>>) -> (refusal: Option<Refusal>)
    ensures
        match refusal {
            Some(r) => {
                &&& first_refusal(findings@) == Some((r.index as nat, r.fault))
                &&& r.index < findings.len()
                &&& findings[r.index as int] == Some(r.fault)
                &&& forall|j: int| 0 <= j < r.index ==> (#[trigger] findings[j]) is None
            },
            None => {
                &&& first_refusal(findings@) is None
                &&& forall|j: int| 0 <= j < findings.len() ==> (#[trigger] findings[j]) is None
            },
        },
{
    let ghost all = findings@;
    assert(all.skip(0) =~= all);
    proof {
        lemma_first_fault_position(all);
    }
    let mut at: usize = 0;
    while at < findings.len()
        invariant
            all == findings@,
            at <= findings.len(),
            first_fault_position(all) == at + first_fault_position(all.skip(at as int)),
            first_fault_position(all) < all.len() ==> all[first_fault_position(all) as int] is Some,
            forall|j: int| 0 <= j < first_fault_position(all) ==> (#[trigger] all[j]) is None,
        decreases findings.len() - at,
    {
        match findings[at] {
            Some(fault) => {
                return Some(Refusal { index: at, fault });
            },
            None => {},
        }
        assert(all.skip(at as int).drop_first() =~= all.skip(at + 1));
        at += 1;
    }
    None
}

/// Runs the strict check on every identifier of `items`.
pub fn strict_check(items: &Vec<String>) -> (findings: Vec<Option<IdFault>>)
    ensures
        findings@ == strict_findings(items.deep_view()),
{
    let mut findings: Vec<Option<IdFault>> = Vec::new();
    for at in 0..items.len()
        invariant
            findings.len() == at,
            forall|i: int|
                0 <= i < at ==> #[trigger] findings@[i] == track_uri_fault(items.deep_view()[i]),
    {
        findings.push(check_track_uri(items[at].as_str()));
    }
    findings
}

/// Decides whether a batch may be submitted: it may when the catalog's strict
/// parser accepts every identifier in it. Otherwise the first identifier that
/// was refused is reported, and the batch is not to be sent.
pub fn vet_batch(items: &Vec<String>) -> (refusal: Option<Refusal>)
    ensures
        match refusal {
            Some(r) => first_refusal(strict_findings(items.deep_view())) == Some(
                (r.index as nat, r.fault),
            ),
            None => first_refusal(strict_findings(items.deep_view())) is None,
        },
{
    let findings = strict_check(items);
    first_fault(&findings)
}

} // verus!
