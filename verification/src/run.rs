//! The orchestrator's decisions: which address source a run uses, and
//! what a whole batch run yields once every address's transport
//! outcome is in.

use vstd::prelude::*;

use crate::sink::{lemma_partition_exhaustive, partition_verdicts, spec_invalid_addresses,
    spec_valid_addresses, spec_verdict_addresses};
use crate::verdict::{LookupError, SpecVerdict, Verdict};
use crate::wire::{classify_response, spec_lookup};

verus! {

/// How a run sources its addresses, chosen once at start.
#[derive(Clone, Copy, Debug, PartialEq, Eq, Structural)]
pub enum Mode {
    /// One literal address was supplied.
    Single,
    /// A file of addresses was supplied.
    Batch,
    /// Neither: one line is read from interactive input.
    Interactive,
}

/// The mode a run takes for the two supplied option values: a literal
/// address wins over a file, and with neither the run is interactive.
pub open spec fn spec_mode(email: Seq<u8>, file: Seq<u8>) -> Mode {
    if email.len() > 0 {
        Mode::Single
    } else if file.len() > 0 {
        Mode::Batch
    } else {
        Mode::Interactive
    }
}

/// Select the address source from the raw option values, as supplied.
pub fn choose_mode(email: &[u8], file: &[u8]) -> (m: Mode)
    ensures
        m == spec_mode(email@, file@),
{
    if email.len() > 0 {
        Mode::Single
    } else if file.len() > 0 {
        Mode::Batch
    } else {
        Mode::Interactive
    }
}

/// The verdicts of a batch run, in address order: each address's
/// transport outcome classified, addresses whose lookup failed
/// contributing no verdict.
pub open spec fn spec_batch_verdicts(
    addrs: Seq<Seq<u8>>,
    responses: Seq<Option<Seq<u8>>>,
) -> Seq<SpecVerdict>
    decreases addrs.len(),
{
    if addrs.len() == 0 || responses.len() == 0 {
        Seq::empty()
    } else {
        let rest = spec_batch_verdicts(addrs.drop_last(), responses.drop_last());
        match spec_lookup(addrs.last(), responses.last()) {
            Ok(v) => rest.push(v),
            Err(_) => rest,
        }
    }
}

/// The addresses of a batch run for which the lookup returned a
/// verdict at all, in address order.
pub open spec fn spec_answered_addresses(
    addrs: Seq<Seq<u8>>,
    responses: Seq<Option<Seq<u8>>>,
) -> Seq<Seq<u8>>
    decreases addrs.len(),
{
    if addrs.len() == 0 || responses.len() == 0 {
        Seq::empty()
    } else {
        let rest = spec_answered_addresses(addrs.drop_last(), responses.drop_last());
        match spec_lookup(addrs.last(), responses.last()) {
            Ok(_) => rest.push(addrs.last()),
            Err(_) => rest,
        }
    }
}

/// A batch run's verdicts carry exactly the addresses whose lookup
/// was answered, in order: classification changes no address.
pub proof fn lemma_batch_verdict_addresses(addrs: Seq<Seq<u8>>, responses: Seq<Option<Seq<u8>>>)
    ensures
        spec_verdict_addresses(spec_batch_verdicts(addrs, responses))
            == spec_answered_addresses(addrs, responses),
    decreases addrs.len(),
{
    let vs = spec_batch_verdicts(addrs, responses);
    if addrs.len() == 0 || responses.len() == 0 {
        assert(spec_verdict_addresses(vs) =~= spec_answered_addresses(
            addrs,
            responses,
        ));
    } else {
        lemma_batch_verdict_addresses(addrs.drop_last(), responses.drop_last());
        let rest = spec_batch_verdicts(addrs.drop_last(), responses.drop_last());
        assert(spec_verdict_addresses(rest) =~= vs.map_values(
            |v: SpecVerdict| v.address,
        ).take(rest.len() as int));
        assert(spec_verdict_addresses(vs) =~= spec_answered_addresses(
            addrs,
            responses,
        ));
    }
}

/// Together, the two partitions of a batch run hold exactly the
/// addresses for which the lookup returned a verdict — no address is
/// lost, none is duplicated across the partitions, and an address
/// whose lookup failed appears in neither.
pub proof fn lemma_batch_exhaustive(addrs: Seq<Seq<u8>>, responses: Seq<Option<Seq<u8>>>)
    ensures
        spec_valid_addresses(spec_batch_verdicts(addrs, responses)).to_multiset().add(
            spec_invalid_addresses(spec_batch_verdicts(addrs, responses)).to_multiset(),
        ) == spec_answered_addresses(addrs, responses).to_multiset(),
{
    lemma_partition_exhaustive(spec_batch_verdicts(addrs, responses));
    lemma_batch_verdict_addresses(addrs, responses);
}

/// Drive a whole batch run, given each address's transport outcome
/// (the response body the POST for it produced, or nothing on a
/// network failure): classify every outcome and partition the
/// resulting verdicts. The first list holds the addresses confirmed
/// to exist, the second the addresses denied; a failed lookup leaves
/// its address in neither.
pub fn run_batch(addrs: &Vec<Vec<u8>>, responses: &Vec<Option<Vec<u8>>>) -> (r: (
    Vec<Vec<u8>>,
    Vec<Vec<u8>>,
))
    requires
        addrs@.len() == responses@.len(),
    ensures
        r.0.deep_view() == spec_valid_addresses(
            spec_batch_verdicts(addrs.deep_view(), responses.deep_view()),
        ),
        r.1.deep_view() == spec_invalid_addresses(
            spec_batch_verdicts(addrs.deep_view(), responses.deep_view()),
        ),
{
    let ghost ga = addrs.deep_view();
    let ghost gr = responses.deep_view();
    let mut verdicts: Vec<Verdict> = Vec::new();
    let mut i: usize = 0;
    proof {
        assert(verdicts.deep_view() =~~= spec_batch_verdicts(ga.take(0), gr.take(0)));
    }
    while i < addrs.len()
        invariant
            0 <= i <= addrs@.len() == responses@.len(),
            ga == addrs.deep_view(),
            gr == responses.deep_view(),
            verdicts.deep_view() == spec_batch_verdicts(ga.take(i as int), gr.take(i as int)),
        decreases addrs@.len() - i,
    {
        let a = addrs[i].clone();
        proof {
            assert(a@ =~= addrs@[i as int]@);
            assert(ga[i as int] == addrs@[i as int].deep_view());
            assert(ga[i as int] =~= a@);
            assert(ga.take(i + 1).drop_last() =~= ga.take(i as int));
            assert(gr.take(i + 1).drop_last() =~= gr.take(i as int));
            assert(ga.take(i + 1).last() == ga[i as int]);
            assert(gr.take(i + 1).last() == gr[i as int]);
        }
        let ghost old_verdicts = verdicts.deep_view();
        let out: Result<Verdict, LookupError> = match &responses[i] {
            None => {
                proof {
                    assert(gr[i as int] == responses@[i as int].deep_view());
                    assert(gr[i as int] is None);
                }
                Err(LookupError::Transport)
            },
            Some(body) => {
                proof {
                    assert(gr[i as int] == responses@[i as int].deep_view());
                    assert(gr[i as int] == Some(body.deep_view()));
                    assert(body.deep_view() =~= body@);
                }
                classify_response(a, body.as_slice())
            },
        };
        match out {
            Ok(v) => {
                verdicts.push(v);
                proof {
                    assert(verdicts.deep_view() =~~= old_verdicts.push(
                        spec_batch_verdicts(ga.take(i + 1), gr.take(i + 1)).last(),
                    ));
                    assert(verdicts.deep_view() =~~= spec_batch_verdicts(
                        ga.take(i + 1),
                        gr.take(i + 1),
                    ));
                }
            },
            Err(_) => {
                proof {
                    assert(verdicts.deep_view() =~~= spec_batch_verdicts(
                        ga.take(i + 1),
                        gr.take(i + 1),
                    ));
                }
            },
        }
        i = i + 1;
    }
    proof {
        assert(ga.take(ga.len() as int) =~= ga);
        assert(gr.take(gr.len() as int) =~= gr);
    }
    partition_verdicts(&verdicts)
}

} // verus!
