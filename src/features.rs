use vstd::prelude::*;

use crate::record::TelemetryRecord;

verus! {

/// Number of columns in every feature row: balance, number of largest
/// accounts, cluster nodes.
pub const FEATURE_WIDTH: usize = 3;

/// How the label of a record is derived from it.
#[derive(PartialEq, Eq, Structural, Clone, Copy, Debug)]
pub enum LabelRule {
    /// The label is the balance itself (the default).
    Balance,
    /// The label is the balance divided by the given bucket width (rounded
    /// down); a width of zero leaves the balance as it is.
    BalanceBucket(u64),
}

/// Why a dataset could not be built.
#[derive(PartialEq, Eq, Structural, Clone, Copy, Debug)]
pub enum BuildError {
    /// No records were given.
    EmptyInput,
    /// Row `row` came out with `width` columns instead of `FEATURE_WIDTH`.
    Shape { row: usize, width: usize },
}

/// A rectangular feature matrix, one row per record in record order, paired
/// with one label per row.
#[derive(Clone, Debug)]
pub struct Dataset {
    pub rows: Vec<Vec<u64>>,
    pub labels: Vec<u64>,
}

/// The feature row of one record.
pub open spec fn feature_row(rec: TelemetryRecord) -> Seq<u64> {
    seq![rec.balance, rec.largest_accounts@.len() as u64, rec.cluster_nodes]
}

/// The label of a record with balance `balance` under `rule`.
pub open spec fn label_for(rule: LabelRule, balance: u64) -> u64 {
    match rule {
        LabelRule::Balance => balance,
        LabelRule::BalanceBucket(w) => if w == 0 {
            balance
        } else {
            balance / w
        },
    }
}

/// The label of one record under `rule`.
pub open spec fn label_of(rule: LabelRule, rec: TelemetryRecord) -> u64 {
    label_for(rule, rec.balance)
}

impl Dataset {
    /// One label per row, and every row exactly `FEATURE_WIDTH` wide.
    pub open spec fn wf(&self) -> bool {
        &&& self.rows@.len() == self.labels@.len()
        &&& forall|i: int| 0 <= i < self.rows@.len() ==> (#[trigger] self.rows@[i])@.len() == FEATURE_WIDTH
    }

    /// The dataset holds, row by row, the features and labels of `recs`.
    pub open spec fn built_from(&self, recs: Seq<TelemetryRecord>, rule: LabelRule) -> bool {
        &&& self.wf()
        &&& self.rows@.len() == recs.len()
        &&& forall|i: int| 0 <= i < recs.len() ==> (#[trigger] self.rows@[i])@ == feature_row(recs[i])
        &&& forall|i: int| 0 <= i < recs.len() ==> #[trigger] self.labels@[i] == label_of(rule, recs[i])
    }

    pub fn n_rows(&self) -> (r: usize)
        ensures
            r == self.rows@.len(),
    {
        self.rows.len()
    }

    /// Whether there is one label per row and every row is `FEATURE_WIDTH` wide.
    pub fn is_rectangular(&self) -> (r: bool)
        ensures
            r == self.wf(),
    {
        if self.rows.len() != self.labels.len() {
            return false;
        }
        let mut i: usize = 0;
        while i < self.rows.len()
            invariant
                i <= self.rows@.len(),
                forall|j: int| 0 <= j < i ==> (#[trigger] self.rows@[j])@.len() == FEATURE_WIDTH,
            decreases self.rows@.len() - i,
        {
            if self.rows[i].len() != FEATURE_WIDTH {
                return false;
            }
            i = i + 1;
        }
        true
    }

    pub fn width(&self) -> (r: usize)
        requires
            self.wf(),
        ensures
            r == FEATURE_WIDTH,
    {
        FEATURE_WIDTH
    }
}

fn label(rule: LabelRule, rec: &TelemetryRecord) -> (r: u64)
    ensures
        r == label_of(rule, *rec),
{
    match rule {
        LabelRule::Balance => rec.balance,
        LabelRule::BalanceBucket(w) => if w == 0 {
            rec.balance
        } else {
            rec.balance / w
        },
    }
}

/// Builds the dataset of `recs` with labels under `rule`. Fails with
/// `EmptyInput` exactly when there are no records.
pub fn build_with(recs: &Vec<TelemetryRecord>, rule: LabelRule) -> (r: Result<Dataset, BuildError>)
    ensures
        recs@.len() == 0 <==> r == Err::<Dataset, BuildError>(BuildError::EmptyInput),
        recs@.len() > 0 ==> r is Ok && r->Ok_0.built_from(recs@, rule),
{
    if recs.len() == 0 {
        return Err(BuildError::EmptyInput);
    }
    let mut rows: Vec<Vec<u64>> = Vec::new();
    let mut labels: Vec<u64> = Vec::new();
    let mut i: usize = 0;
    while i < recs.len()
        invariant
            i <= recs@.len(),
            rows@.len() == i,
            labels@.len() == i,
            forall|j: int| 0 <= j < i ==> (#[trigger] rows@[j])@ == feature_row(recs@[j]),
            forall|j: int| 0 <= j < i ==> #[trigger] labels@[j] == label_of(rule, recs@[j]),
        decreases recs@.len() - i,
    {
        let rec = &recs[i];
        let row: Vec<u64> = vec![rec.balance, rec.largest_accounts.len() as u64, rec.cluster_nodes];
        if row.len() != FEATURE_WIDTH {
            return Err(BuildError::Shape { row: i, width: row.len() });
        }
        assert(row@ == feature_row(recs@[i as int]));
        rows.push(row);
        labels.push(label(rule, rec));
        i = i + 1;
    }
    Ok(Dataset { rows, labels })
}

/// Builds the dataset of `recs` with the default rule: the label is the
/// balance. Fails with `EmptyInput` exactly when there are no records.
pub fn build(recs: &Vec<TelemetryRecord>) -> (r: Result<Dataset, BuildError>)
    ensures
        recs@.len() == 0 <==> r == Err::<Dataset, BuildError>(BuildError::EmptyInput),
        recs@.len() > 0 ==> r is Ok && r->Ok_0.built_from(recs@, LabelRule::Balance),
{
    build_with(recs, LabelRule::Balance)
}

} // verus!
