use vstd::prelude::*;

use crate::features::{build_with, label_for, BuildError, Dataset, LabelRule};
use crate::models::ModelResult;
use crate::record::{
    decode_records, decodes_to, lemma_first_bad_record, lemma_some_first_bad_record, payload_error, record_problem, DecodeError, Field, Problem,
    RawRecord,
};

verus! {

/// What the node probe found: the balance of the probed account and the
/// balances of the largest token holders.
#[derive(PartialEq, Eq, Clone, Debug)]
pub struct WealthSummary {
    pub balance: u64,
    pub largest_holders: Vec<u64>,
}

/// Why the node probe gave no summary.
#[derive(PartialEq, Eq, Clone, Debug)]
pub enum ProbeError {
    /// The node client failed, for the reason given.
    Rpc(String),
}

/// Why a run was abandoned before any model ran.
#[derive(PartialEq, Eq, Clone, Debug)]
pub enum PipelineError {
    /// The telemetry source could not be reached or answered with a failure.
    Transport(String),
    /// The telemetry payload broke the record schema.
    Decode(DecodeError),
    /// No dataset could be built from the records.
    Build(BuildError),
}

/// The combined outcome of a run: one result per requested model, and the
/// probe's summary or failure.
#[derive(PartialEq, Eq, Debug)]
pub struct Report {
    pub models: Vec<ModelResult>,
    pub wealth: Result<WealthSummary, ProbeError>,
}

/// The feature row of a well-formed wire record.
pub open spec fn raw_row(raw: RawRecord) -> Seq<u64> {
    seq![
        raw.balance->0 as u64,
        raw.largest_accounts->0@.len() as u64,
        raw.cluster_nodes->0 as u64,
    ]
}

/// `d` holds, row by row, the features and labels of the well-formed `raws`.
pub open spec fn prepared_from(d: Dataset, raws: Seq<RawRecord>, rule: LabelRule) -> bool {
    &&& d.wf()
    &&& d.rows@.len() == raws.len()
    &&& forall|i: int| 0 <= i < raws.len() ==> (#[trigger] d.rows@[i])@ == raw_row(raws[i])
    &&& forall|i: int|
        0 <= i < raws.len() ==> #[trigger] d.labels@[i] == label_for(rule, raws[i].balance->0 as u64)
}

/// Turns a telemetry payload into a dataset: the payload is decoded first,
/// and a payload that breaks the schema never reaches the feature builder.
pub fn prepare(raws: Vec<RawRecord>, rule: LabelRule) -> (r: Result<Dataset, PipelineError>)
    ensures
        payload_error(raws@) is Some ==> r == Err::<Dataset, PipelineError>(
            PipelineError::Decode(payload_error(raws@)->0),
        ),
        payload_error(raws@) is None && raws@.len() == 0 ==> r == Err::<Dataset, PipelineError>(
            PipelineError::Build(BuildError::EmptyInput),
        ),
        payload_error(raws@) is None && raws@.len() > 0 ==> r is Ok && prepared_from(
            r->Ok_0,
            raws@,
            rule,
        ),
{
    let ghost all = raws@;
    match decode_records(raws) {
        Err(e) => Err(PipelineError::Decode(e)),
        Ok(recs) => match build_with(&recs, rule) {
            Err(e) => Err(PipelineError::Build(e)),
            Ok(d) => {
                proof {
                    reveal(decodes_to);
                    assert forall|i: int| 0 <= i < all.len() implies (#[trigger] d.rows@[i])@
                        == raw_row(all[i]) && d.labels@[i] == label_for(
                        rule,
                        all[i].balance->0 as u64,
                    ) by {
                        assert(decodes_to(all[i], recs@[i]));
                        assert(d.rows@[i]@ =~= raw_row(all[i]));
                    }
                }
                Ok(d)
            },
        },
    }
}

/// The outcome of a run whose dataset stages gave `prepared`.
pub open spec fn concluded(
    prepared: Result<Dataset, PipelineError>,
    models: Vec<ModelResult>,
    wealth: Result<WealthSummary, ProbeError>,
) -> Result<Report, PipelineError> {
    match prepared {
        Err(e) => Err(e),
        Ok(_) => Ok(Report { models, wealth }),
    }
}

/// Combines the dataset stages' outcome, the model results and the probe's
/// outcome: a failed dataset stage aborts the run, a failed probe does not.
pub fn conclude(
    prepared: Result<Dataset, PipelineError>,
    models: Vec<ModelResult>,
    wealth: Result<WealthSummary, ProbeError>,
) -> (r: Result<Report, PipelineError>)
    ensures
        r == concluded(prepared, models, wealth),
{
    match prepared {
        Err(e) => Err(e),
        Ok(_) => Ok(Report { models, wealth }),
    }
}

/// The process status of a run: zero when a report was produced.
pub open spec fn exit_status(outcome: Result<Report, PipelineError>) -> i32 {
    if outcome is Ok {
        0
    } else {
        1
    }
}

pub fn exit_code(outcome: &Result<Report, PipelineError>) -> (r: i32)
    ensures
        r == exit_status(*outcome),
{
    match outcome {
        Ok(_) => 0,
        Err(_) => 1,
    }
}

/// A payload holding a record with a negative balance is rejected when it is
/// decoded, at that record or an earlier one; when every earlier record is
/// well formed, the error names that record's balance as negative.
pub proof fn lemma_negative_balance_rejected(raws: Seq<RawRecord>, i: int)
    requires
        0 <= i < raws.len(),
        raws[i].balance is Some,
        raws[i].balance->0 < 0,
    ensures
        payload_error(raws) is Some,
        payload_error(raws)->0 matches DecodeError::Field { record, .. } && record <= i,
        (forall|j: int| 0 <= j < i ==> record_problem(#[trigger] raws[j]) is None)
            ==> payload_error(raws) == Some(
            DecodeError::Field { record: i as usize, field: Field::Balance, problem: Problem::Negative },
        ),
{
    reveal(record_problem);
    assert(record_problem(raws[i]) == Some((Field::Balance, Problem::Negative)));
    let k = lemma_some_first_bad_record(raws, i);
    if forall|j: int| 0 <= j < i ==> record_problem(#[trigger] raws[j]) is None {
        lemma_first_bad_record(raws, i);
    }
}

/// A failed probe does not abort a run whose dataset stages succeeded: the
/// report keeps every model result as given, and the exit status is zero.
pub proof fn lemma_probe_failure_isolated(d: Dataset, models: Vec<ModelResult>, reason: String)
    ensures
        concluded(Ok(d), models, Err(ProbeError::Rpc(reason))) == Ok::<Report, PipelineError>(
            Report { models, wealth: Err(ProbeError::Rpc(reason)) },
        ),
        exit_status(concluded(Ok(d), models, Err(ProbeError::Rpc(reason)))) == 0,
{
}

/// A payload holding a record with a negative balance aborts the run: the
/// dataset stages end in a decode error, the outcome is that error whatever
/// the models and the probe gave, and the exit status is not zero.
pub proof fn lemma_malformed_payload_aborts(
    raws: Seq<RawRecord>,
    i: int,
    models: Vec<ModelResult>,
    wealth: Result<WealthSummary, ProbeError>,
)
    requires
        0 <= i < raws.len(),
        raws[i].balance is Some,
        raws[i].balance->0 < 0,
    ensures
        payload_error(raws) is Some,
        ({
            let outcome = concluded(
                Err(PipelineError::Decode(payload_error(raws)->0)),
                models,
                wealth,
            );
            &&& outcome == Err::<Report, PipelineError>(PipelineError::Decode(payload_error(raws)->0))
            &&& exit_status(outcome) != 0
        }),
{
    lemma_negative_balance_rejected(raws, i);
}

} // verus!
