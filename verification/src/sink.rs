//! The result sink of batch mode: routing every verdict to exactly one
//! of the two output partitions.

use vstd::prelude::*;

use crate::verdict::{SpecVerdict, Verdict};

verus! {

/// The addresses of the verdicts that confirm an existing account, in
/// verdict order.
pub open spec fn spec_valid_addresses(vs: Seq<SpecVerdict>) -> Seq<Seq<u8>>
    decreases vs.len(),
{
    if vs.len() == 0 {
        Seq::empty()
    } else {
        let rest = spec_valid_addresses(vs.drop_last());
        if vs.last().exists {
            rest.push(vs.last().address)
        } else {
            rest
        }
    }
}

/// The addresses of the verdicts that deny an existing account, in
/// verdict order.
pub open spec fn spec_invalid_addresses(vs: Seq<SpecVerdict>) -> Seq<Seq<u8>>
    decreases vs.len(),
{
    if vs.len() == 0 {
        Seq::empty()
    } else {
        let rest = spec_invalid_addresses(vs.drop_last());
        if !vs.last().exists {
            rest.push(vs.last().address)
        } else {
            rest
        }
    }
}

/// The addresses of all verdicts, in verdict order.
pub open spec fn spec_verdict_addresses(vs: Seq<SpecVerdict>) -> Seq<Seq<u8>> {
    vs.map_values(|v: SpecVerdict| v.address)
}

/// Route every verdict of a batch run to its partition: the first
/// returned list holds the addresses confirmed to exist, the second
/// the addresses denied, each in verdict order.
pub fn partition_verdicts(vs: &Vec<Verdict>) -> (r: (Vec<Vec<u8>>, Vec<Vec<u8>>))
    ensures
        r.0.deep_view() == spec_valid_addresses(vs.deep_view()),
        r.1.deep_view() == spec_invalid_addresses(vs.deep_view()),
{
    let ghost all = vs.deep_view();
    let mut valid: Vec<Vec<u8>> = Vec::new();
    let mut invalid: Vec<Vec<u8>> = Vec::new();
    let mut i: usize = 0;
    proof {
        assert(valid.deep_view() =~~= spec_valid_addresses(all.take(0)));
        assert(invalid.deep_view() =~~= spec_invalid_addresses(all.take(0)));
    }
    while i < vs.len()
        invariant
            0 <= i <= vs@.len(),
            all == vs.deep_view(),
            valid.deep_view() == spec_valid_addresses(all.take(i as int)),
            invalid.deep_view() == spec_invalid_addresses(all.take(i as int)),
        decreases vs@.len() - i,
    {
        let a = vs[i].address.clone();
        proof {
            assert(a@ =~= vs@[i as int].address@);
            assert(all[i as int] == vs@[i as int].deep_view());
            assert(all.take(i + 1).drop_last() =~= all.take(i as int));
            assert(all.take(i + 1).last() == all[i as int]);
        }
        let ghost old_valid = valid.deep_view();
        let ghost old_invalid = invalid.deep_view();
        if vs[i].exists {
            valid.push(a);
            proof {
                assert(valid.deep_view() =~~= old_valid.push(all[i as int].address));
            }
        } else {
            invalid.push(a);
            proof {
                assert(invalid.deep_view() =~~= old_invalid.push(all[i as int].address));
            }
        }
        i = i + 1;
    }
    proof {
        assert(all.take(all.len() as int) =~= all);
    }
    (valid, invalid)
}

/// No verdict is lost and none is duplicated across the partitions:
/// together, the two partitions of a batch run hold exactly the
/// addresses of the verdicts the run produced, each as often as a
/// verdict carried it.
pub proof fn lemma_partition_exhaustive(vs: Seq<SpecVerdict>)
    ensures
        spec_valid_addresses(vs).to_multiset().add(spec_invalid_addresses(vs).to_multiset())
            == spec_verdict_addresses(vs).to_multiset(),
    decreases vs.len(),
{
    broadcast use vstd::seq_lib::group_to_multiset_ensures;

    if vs.len() == 0 {
        assert(spec_verdict_addresses(vs) =~= Seq::<Seq<u8>>::empty());
        assert(spec_valid_addresses(vs).to_multiset().add(
            spec_invalid_addresses(vs).to_multiset(),
        ) =~= spec_verdict_addresses(vs).to_multiset());
    } else {
        let d = vs.drop_last();
        lemma_partition_exhaustive(d);
        assert(spec_verdict_addresses(vs).drop_last() =~= spec_verdict_addresses(d));
        assert(spec_verdict_addresses(vs) =~= spec_verdict_addresses(d).push(vs.last().address));
        assert(spec_valid_addresses(vs).to_multiset().add(
            spec_invalid_addresses(vs).to_multiset(),
        ) =~= spec_verdict_addresses(vs).to_multiset());
    }
}

} // verus!
