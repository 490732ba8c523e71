use vstd::prelude::*;

use crate::features::{Dataset, FEATURE_WIDTH};

verus! {

/// Number of clusters asked of the clustering model unless configured.
pub const KMEANS_CLUSTERS: usize = 3;

/// Iteration cap of the classification model unless configured.
pub const LOGREG_MAX_ITER: u64 = 150;

/// The three analysis models.
#[derive(PartialEq, Eq, Structural, Clone, Copy, Debug)]
pub enum ModelKind {
    Reduction,
    Classification,
    Clustering,
}

/// Which models a run asks for.
#[derive(PartialEq, Eq, Structural, Clone, Copy, Debug)]
pub struct EnabledModels {
    pub reduction: bool,
    pub classification: bool,
    pub clustering: bool,
}

/// Settings of the model runner.
#[derive(PartialEq, Eq, Structural, Clone, Copy, Debug)]
pub struct RunnerConfig {
    pub enabled: EnabledModels,
    pub clusters: usize,
    pub max_iterations: u64,
}

/// Why one model produced no result.
#[derive(PartialEq, Eq, Clone, Debug)]
pub enum ModelError {
    /// The dataset has too few rows, or too little variation, for the model.
    InsufficientData,
    /// A setting makes the model meaningless (zero clusters).
    InvalidParameter,
    /// The model returned something that does not fit the dataset.
    BadOutput,
    /// The model itself failed, for the reason given.
    Failed(String),
}

/// What one model produced.
#[derive(PartialEq, Eq, Clone, Debug)]
pub enum ModelOutput {
    /// The rows were projected onto `dims` axes; `rows` points came out.
    Reduced { rows: usize, dims: usize },
    /// One predicted class per row, from the best iterate within the cap.
    Classified { predictions: Vec<bool> },
    /// One cluster index per row.
    Clustered { assignments: Vec<usize> },
}

/// The outcome of one requested model.
#[derive(PartialEq, Eq, Debug)]
pub struct ModelResult {
    pub kind: ModelKind,
    pub outcome: Result<ModelOutput, ModelError>,
}

/// For each model: `None` when it was not asked for, else whether the
/// dataset lets it be attempted.
#[derive(PartialEq, Eq, Debug)]
pub struct ModelPlan {
    pub reduction: Option<Result<(), ModelError>>,
    pub classification: Option<Result<(), ModelError>>,
    pub clustering: Option<Result<(), ModelError>>,
}

impl EnabledModels {
    /// Every model enabled.
    pub fn all() -> (r: EnabledModels)
        ensures
            r.reduction && r.classification && r.clustering,
    {
        EnabledModels { reduction: true, classification: true, clustering: true }
    }

    pub open spec fn spec_contains(&self, kind: ModelKind) -> bool {
        match kind {
            ModelKind::Reduction => self.reduction,
            ModelKind::Classification => self.classification,
            ModelKind::Clustering => self.clustering,
        }
    }

    #[verifier::when_used_as_spec(spec_contains)]
    pub fn contains(&self, kind: ModelKind) -> (r: bool)
        ensures
            r == self.spec_contains(kind),
    {
        match kind {
            ModelKind::Reduction => self.reduction,
            ModelKind::Classification => self.classification,
            ModelKind::Clustering => self.clustering,
        }
    }
}

impl RunnerConfig {
    /// All models, `KMEANS_CLUSTERS` clusters, `LOGREG_MAX_ITER` iterations.
    pub fn default_config() -> (r: RunnerConfig)
        ensures
            r.enabled.reduction && r.enabled.classification && r.enabled.clustering,
            r.clusters == KMEANS_CLUSTERS,
            r.max_iterations == LOGREG_MAX_ITER,
    {
        RunnerConfig { enabled: EnabledModels::all(), clusters: KMEANS_CLUSTERS, max_iterations: LOGREG_MAX_ITER }
    }
}

/// Every row of `rows` equals the first.
pub open spec fn all_rows_equal(rows: Seq<Vec<u64>>) -> bool {
    forall|i: int| 0 <= i < rows.len() ==> (#[trigger] rows[i])@ == rows[0]@
}

/// Reduction needs two rows that differ.
pub open spec fn reduction_gate(d: Dataset) -> Result<(), ModelError> {
    if d.rows@.len() >= 2 && !all_rows_equal(d.rows@) {
        Ok(())
    } else {
        Err(ModelError::InsufficientData)
    }
}

/// Classification is always attempted; a fit that does not converge within
/// the cap still yields its best iterate.
pub open spec fn classification_gate(d: Dataset) -> Result<(), ModelError> {
    Ok(())
}

/// Clustering needs at least one cluster and at least as many rows as clusters.
pub open spec fn clustering_gate(d: Dataset, clusters: usize) -> Result<(), ModelError> {
    if clusters == 0 {
        Err(ModelError::InvalidParameter)
    } else if d.rows@.len() < clusters {
        Err(ModelError::InsufficientData)
    } else {
        Ok(())
    }
}

pub open spec fn gate_if(on: bool, g: Result<(), ModelError>) -> Option<Result<(), ModelError>> {
    if on {
        Some(g)
    } else {
        None
    }
}

/// The plan for `d` under `cfg`: each entry depends on its own model's
/// settings alone.
pub open spec fn planned(d: Dataset, cfg: RunnerConfig) -> ModelPlan {
    ModelPlan {
        reduction: gate_if(cfg.enabled.reduction, reduction_gate(d)),
        classification: gate_if(cfg.enabled.classification, classification_gate(d)),
        clustering: gate_if(cfg.enabled.clustering, clustering_gate(d, cfg.clusters)),
    }
}

fn same_row(a: &Vec<u64>, b: &Vec<u64>) -> (r: bool)
    requires
        a@.len() == FEATURE_WIDTH,
        b@.len() == FEATURE_WIDTH,
    ensures
        r == (a@ == b@),
{
    let r = a[0] == b[0] && a[1] == b[1] && a[2] == b[2];
    if r {
        assert(a@ =~= b@);
    }
    r
}

/// Whether the reduction model may be attempted on `d`.
pub fn check_reduction(d: &Dataset) -> (r: Result<(), ModelError>)
    requires
        d.wf(),
    ensures
        r == reduction_gate(*d),
{
    let n = d.rows.len();
    if n < 2 {
        return Err(ModelError::InsufficientData);
    }
    let mut i: usize = 1;
    while i < n
        invariant
            d.wf(),
            n == d.rows@.len(),
            1 <= i <= n,
            forall|j: int| 0 <= j < i ==> (#[trigger] d.rows@[j])@ == d.rows@[0]@,
        decreases n - i,
    {
        if !same_row(&d.rows[i], &d.rows[0]) {
            return Ok(());
        }
        i = i + 1;
    }
    Err(ModelError::InsufficientData)
}

/// Whether the clustering model may be attempted on `d` with `clusters` clusters.
pub fn check_clustering(d: &Dataset, clusters: usize) -> (r: Result<(), ModelError>)
    ensures
        r == clustering_gate(*d, clusters),
{
    if clusters == 0 {
        Err(ModelError::InvalidParameter)
    } else if d.rows.len() < clusters {
        Err(ModelError::InsufficientData)
    } else {
        Ok(())
    }
}

/// Decides, for each model that `cfg` asks for, whether it is attempted on
/// `d` or fails at once, each independently of the others.
pub fn plan(d: &Dataset, cfg: &RunnerConfig) -> (r: ModelPlan)
    requires
        d.wf(),
    ensures
        r == planned(*d, *cfg),
{
    let reduction = if cfg.enabled.reduction {
        Some(check_reduction(d))
    } else {
        None
    };
    let classification = if cfg.enabled.classification {
        Some(Ok(()))
    } else {
        None
    };
    let clustering = if cfg.enabled.clustering {
        Some(check_clustering(d, cfg.clusters))
    } else {
        None
    };
    ModelPlan { reduction, classification, clustering }
}

/// A planned entry that is to be run.
pub open spec fn attempted(g: Option<Result<(), ModelError>>) -> bool {
    match g {
        Some(Ok(_)) => true,
        _ => false,
    }
}

pub open spec fn attempt_of(kind: ModelKind, g: Option<Result<(), ModelError>>) -> Seq<ModelKind> {
    if attempted(g) {
        seq![kind]
    } else {
        seq![]
    }
}

/// The models of `p` to be run, in the order reduction, classification,
/// clustering.
pub open spec fn attempt_seq(p: ModelPlan) -> Seq<ModelKind> {
    attempt_of(ModelKind::Reduction, p.reduction) + attempt_of(
        ModelKind::Classification,
        p.classification,
    ) + attempt_of(ModelKind::Clustering, p.clustering)
}

pub open spec fn refusal_of(kind: ModelKind, g: Option<Result<(), ModelError>>) -> Seq<ModelResult> {
    match g {
        Some(Err(e)) => seq![ModelResult { kind, outcome: Err(e) }],
        _ => seq![],
    }
}

/// The failed results of the models of `p` that fail without being run.
pub open spec fn refusal_seq(p: ModelPlan) -> Seq<ModelResult> {
    refusal_of(ModelKind::Reduction, p.reduction) + refusal_of(
        ModelKind::Classification,
        p.classification,
    ) + refusal_of(ModelKind::Clustering, p.clustering)
}

fn push_attempt(out: &mut Vec<ModelKind>, kind: ModelKind, g: &Option<Result<(), ModelError>>)
    ensures
        final(out)@ == old(out)@ + attempt_of(kind, *g),
{
    let run = match g {
        Some(Ok(_)) => true,
        _ => false,
    };
    if run {
        assert(attempted(*g));
        out.push(kind);
        assert(out@ =~= old(out)@ + seq![kind]);
    } else {
        assert(!attempted(*g));
        assert(out@ =~= old(out)@ + Seq::<ModelKind>::empty());
    }
}

fn push_refusal(out: &mut Vec<ModelResult>, kind: ModelKind, g: Option<Result<(), ModelError>>)
    ensures
        final(out)@ == old(out)@ + refusal_of(kind, g),
{
    let ghost g0 = g;
    match g {
        Some(Err(e)) => {
            out.push(ModelResult { kind, outcome: Err(e) });
        },
        _ => {},
    }
    assert(out@ =~= old(out)@ + refusal_of(kind, g0));
}

impl ModelPlan {
    /// The models to be run.
    pub fn attempts(&self) -> (r: Vec<ModelKind>)
        ensures
            r@ == attempt_seq(*self),
    {
        let mut r: Vec<ModelKind> = Vec::new();
        push_attempt(&mut r, ModelKind::Reduction, &self.reduction);
        push_attempt(&mut r, ModelKind::Classification, &self.classification);
        push_attempt(&mut r, ModelKind::Clustering, &self.clustering);
        assert(r@ =~= attempt_seq(*self));
        r
    }

    /// The results of the models that fail without being run.
    pub fn into_refusals(self) -> (r: Vec<ModelResult>)
        ensures
            r@ == refusal_seq(self),
    {
        let ghost p = self;
        let mut r: Vec<ModelResult> = Vec::new();
        push_refusal(&mut r, ModelKind::Reduction, self.reduction);
        push_refusal(&mut r, ModelKind::Classification, self.classification);
        push_refusal(&mut r, ModelKind::Clustering, self.clustering);
        assert(r@ =~= refusal_seq(p));
        r
    }
}

/// Sum of the values of `s`.
pub open spec fn sum_of(s: Seq<u64>) -> int
    decreases s.len(),
{
    if s.len() == 0 {
        0
    } else {
        sum_of(s.drop_last()) + s.last()
    }
}

/// The mean of `s`, rounded down; zero for an empty sequence.
pub open spec fn mean_floor(s: Seq<u64>) -> int {
    if s.len() == 0 {
        0
    } else {
        sum_of(s) / s.len() as int
    }
}

proof fn lemma_sum_bounds(s: Seq<u64>)
    ensures
        0 <= sum_of(s) <= s.len() * u64::MAX,
    decreases s.len(),
{
    if s.len() > 0 {
        lemma_sum_bounds(s.drop_last());
    }
}

/// The classes that the classification model is fitted to: a row is in the
/// positive class when its label is at least the mean label (rounded down).
pub fn class_targets(labels: &Vec<u64>) -> (r: Vec<bool>)
    ensures
        r@.len() == labels@.len(),
        forall|i: int| 0 <= i < labels@.len() ==> #[trigger] r@[i] == (labels@[i] >= mean_floor(labels@)),
{
    let n = labels.len();
    let mut total: u128 = 0;
    let mut i: usize = 0;
    while i < n
        invariant
            n == labels@.len(),
            i <= n,
            total == sum_of(labels@.take(i as int)),
        decreases n - i,
    {
        proof {
            assert(labels@.take(i + 1).drop_last() =~= labels@.take(i as int));
            lemma_sum_bounds(labels@.take(i as int));
            assert(i as int * u64::MAX + u64::MAX <= u128::MAX) by (nonlinear_arith)
                requires
                    i < n,
                    n <= usize::MAX,
                    usize::MAX <= u64::MAX,
            ;
        }
        total = total + labels[i] as u128;
        i = i + 1;
    }
    assert(labels@.take(n as int) =~= labels@);
    let mut threshold: u64 = 0;
    if n > 0 {
        proof {
            lemma_sum_bounds(labels@);
            assert(total as int / (n as int) <= u64::MAX) by (nonlinear_arith)
                requires
                    n > 0,
                    0 <= total <= n * u64::MAX,
            ;
        }
        threshold = (total / n as u128) as u64;
    }
    let mut r: Vec<bool> = Vec::new();
    let mut j: usize = 0;
    while j < n
        invariant
            n == labels@.len(),
            j <= n,
            threshold == mean_floor(labels@),
            r@.len() == j,
            forall|k: int| 0 <= k < j ==> #[trigger] r@[k] == (labels@[k] >= mean_floor(labels@)),
        decreases n - j,
    {
        r.push(labels[j] >= threshold);
        j = j + 1;
    }
    r
}

/// Accepts what the reduction model returned when it projected every row of
/// `d` onto between one and `FEATURE_WIDTH` axes.
pub fn accept_reduction(d: &Dataset, rows: usize, dims: usize) -> (r: Result<ModelOutput, ModelError>)
    ensures
        r == if rows == d.rows@.len() && 1 <= dims <= FEATURE_WIDTH {
            Ok::<ModelOutput, ModelError>(ModelOutput::Reduced { rows, dims })
        } else {
            Err::<ModelOutput, ModelError>(ModelError::BadOutput)
        },
{
    if rows == d.rows.len() && 1 <= dims && dims <= FEATURE_WIDTH {
        Ok(ModelOutput::Reduced { rows, dims })
    } else {
        Err(ModelError::BadOutput)
    }
}

/// Accepts what the classification model predicted when there is one
/// prediction per row of `d`.
pub fn accept_classification(d: &Dataset, predictions: Vec<bool>) -> (r: Result<
    ModelOutput,
    ModelError,
>)
    ensures
        r == if predictions@.len() == d.rows@.len() {
            Ok::<ModelOutput, ModelError>(ModelOutput::Classified { predictions })
        } else {
            Err::<ModelOutput, ModelError>(ModelError::BadOutput)
        },
{
    if predictions.len() == d.rows.len() {
        Ok(ModelOutput::Classified { predictions })
    } else {
        Err(ModelError::BadOutput)
    }
}

/// Every entry of `a` is below `k`.
pub open spec fn all_below(a: Seq<usize>, k: usize) -> bool {
    forall|i: int| 0 <= i < a.len() ==> #[trigger] a[i] < k
}

/// Accepts what the clustering model assigned when there is one cluster
/// index per row of `d`, each below `clusters`.
pub fn accept_clustering(d: &Dataset, clusters: usize, assignments: Vec<usize>) -> (r: Result<
    ModelOutput,
    ModelError,
>)
    ensures
        r == if assignments@.len() == d.rows@.len() && all_below(assignments@, clusters) {
            Ok::<ModelOutput, ModelError>(ModelOutput::Clustered { assignments })
        } else {
            Err::<ModelOutput, ModelError>(ModelError::BadOutput)
        },
{
    if assignments.len() != d.rows.len() {
        return Err(ModelError::BadOutput);
    }
    let mut i: usize = 0;
    while i < assignments.len()
        invariant
            i <= assignments@.len(),
            forall|j: int| 0 <= j < i ==> #[trigger] assignments@[j] < clusters,
        decreases assignments@.len() - i,
    {
        if assignments[i] >= clusters {
            return Err(ModelError::BadOutput);
        }
        i = i + 1;
    }
    Ok(ModelOutput::Clustered { assignments })
}

/// With every model asked for and fewer rows than clusters, clustering fails
/// for want of data, while reduction and classification are still attempted
/// and decided exactly as they would be with clustering not asked for.
pub proof fn lemma_clustering_failure_is_isolated(d: Dataset, cfg: RunnerConfig)
    requires
        cfg.enabled.reduction && cfg.enabled.classification && cfg.enabled.clustering,
        d.rows@.len() < cfg.clusters,
    ensures
        planned(d, cfg).clustering == Some(Err::<(), ModelError>(ModelError::InsufficientData)),
        planned(d, cfg).classification == Some(Ok::<(), ModelError>(())),
        planned(d, cfg).reduction == Some(reduction_gate(d)),
        ({
            let alone = RunnerConfig {
                enabled: EnabledModels { reduction: true, classification: true, clustering: false },
                clusters: cfg.clusters,
                max_iterations: cfg.max_iterations,
            };
            &&& planned(d, alone).reduction == planned(d, cfg).reduction
            &&& planned(d, alone).classification == planned(d, cfg).classification
        }),
{
}

/// The plan names every model that the configuration asks for, either among
/// the models to run or among the immediate failures, and no other model.
pub proof fn lemma_plan_names_every_requested_model(d: Dataset, cfg: RunnerConfig, kind: ModelKind)
    ensures
        cfg.enabled.spec_contains(kind) <==> (attempt_seq(planned(d, cfg)).contains(kind) || exists|
            i: int,
        |
            0 <= i < refusal_seq(planned(d, cfg)).len() && (#[trigger] refusal_seq(
                planned(d, cfg),
            )[i]).kind == kind),
{
    let p = planned(d, cfg);
    let a = attempt_seq(p);
    let f = refusal_seq(p);
    let g = match kind {
        ModelKind::Reduction => p.reduction,
        ModelKind::Classification => p.classification,
        ModelKind::Clustering => p.clustering,
    };
    assert(cfg.enabled.spec_contains(kind) <==> g is Some);
    if attempted(g) {
        let i = match kind {
            ModelKind::Reduction => 0,
            ModelKind::Classification => attempt_of(ModelKind::Reduction, p.reduction).len() as int,
            ModelKind::Clustering => (attempt_of(ModelKind::Reduction, p.reduction) + attempt_of(
                ModelKind::Classification,
                p.classification,
            )).len() as int,
        };
        assert(a[i] == kind);
    } else if g is Some {
        let i = match kind {
            ModelKind::Reduction => 0,
            ModelKind::Classification => refusal_of(ModelKind::Reduction, p.reduction).len() as int,
            ModelKind::Clustering => (refusal_of(ModelKind::Reduction, p.reduction) + refusal_of(
                ModelKind::Classification,
                p.classification,
            )).len() as int,
        };
        assert(f[i].kind == kind);
    } else {
        assert forall|i: int| 0 <= i < a.len() implies a[i] != kind by {
            let a1 = attempt_of(ModelKind::Reduction, p.reduction);
            let a2 = attempt_of(ModelKind::Classification, p.classification);
            if i < a1.len() {
                assert(a[i] == a1[i]);
            } else if i < a1.len() + a2.len() {
                assert(a[i] == a2[i - a1.len()]);
            }
        }
        assert forall|i: int| 0 <= i < f.len() implies f[i].kind != kind by {
            let f1 = refusal_of(ModelKind::Reduction, p.reduction);
            let f2 = refusal_of(ModelKind::Classification, p.classification);
            if i < f1.len() {
                assert(f[i] == f1[i]);
            } else if i < f1.len() + f2.len() {
                assert(f[i] == f2[i - f1.len()]);
            }
        }
    }
}

} // verus!
