use chain_telemetry::features::{build, build_with, BuildError, LabelRule, FEATURE_WIDTH};
use chain_telemetry::models::{
    accept_classification, accept_clustering, accept_reduction, check_clustering, check_reduction,
    class_targets, plan, EnabledModels, ModelError, ModelKind, ModelOutput, ModelResult,
    RunnerConfig, KMEANS_CLUSTERS, LOGREG_MAX_ITER,
};
use chain_telemetry::pipeline::{
    conclude, exit_code, prepare, PipelineError, ProbeError, WealthSummary,
};
use chain_telemetry::record::{
    decode_record, decode_records, DecodeError, Field, Problem, RawRecord, TelemetryRecord,
};

fn raw(balance: i128, accounts: usize, nodes: i128) -> RawRecord {
    RawRecord {
        balance: Some(balance),
        largest_accounts: Some(vec![7; accounts]),
        cluster_nodes: Some(nodes),
        slot_leaders: Some(vec!["leader-a".to_string()]),
        health_status: Some("ok".to_string()),
        block_production_rate: Some(42),
    }
}

fn record(balance: u64, accounts: usize, nodes: u64) -> TelemetryRecord {
    TelemetryRecord {
        balance,
        largest_accounts: vec![1; accounts],
        cluster_nodes: nodes,
        slot_leaders: vec![],
        health_status: "ok".to_string(),
        block_production_rate: 5,
    }
}

fn five_raws() -> Vec<RawRecord> {
    vec![raw(100, 2, 10), raw(200, 3, 12), raw(150, 1, 11), raw(300, 4, 15), raw(250, 2, 13)]
}

#[test]
fn decode_keeps_every_field() {
    let r = decode_record(raw(100, 2, 10)).unwrap();
    assert_eq!(r.balance, 100);
    assert_eq!(r.largest_accounts, vec![7, 7]);
    assert_eq!(r.cluster_nodes, 10);
    assert_eq!(r.slot_leaders, vec!["leader-a".to_string()]);
    assert_eq!(r.health_status, "ok");
    assert_eq!(r.block_production_rate, 42);
}

#[test]
fn decode_rejects_negative_balance() {
    let err = decode_records(vec![raw(100, 1, 1), raw(-5, 1, 1)]).unwrap_err();
    assert_eq!(
        err,
        DecodeError::Field { record: 1, field: Field::Balance, problem: Problem::Negative }
    );
}

#[test]
fn decode_rejects_missing_and_too_large_fields() {
    let mut r = raw(1, 1, 1);
    r.cluster_nodes = None;
    assert_eq!(decode_record(r).unwrap_err(), (Field::ClusterNodes, Problem::Missing));
    let mut r = raw(1, 1, 1);
    r.block_production_rate = Some(u64::MAX as i128 + 1);
    assert_eq!(decode_record(r).unwrap_err(), (Field::BlockProductionRate, Problem::TooLarge));
    let mut r = raw(1, 1, 1);
    r.largest_accounts = Some(vec![3, -1]);
    assert_eq!(decode_record(r).unwrap_err(), (Field::LargestAccounts, Problem::Negative));
    let mut r = raw(1, 1, 1);
    r.health_status = None;
    assert_eq!(decode_record(r).unwrap_err(), (Field::HealthStatus, Problem::Missing));
}

#[test]
fn decode_accepts_largest_u64() {
    let r = decode_record(raw(u64::MAX as i128, 0, 0)).unwrap();
    assert_eq!(r.balance, u64::MAX);
    assert!(r.largest_accounts.is_empty());
}

#[test]
fn build_empty_fails() {
    assert_eq!(build(&vec![]).unwrap_err(), BuildError::EmptyInput);
}

#[test]
fn build_rows_match_records() {
    let recs = vec![record(100, 2, 10), record(5, 0, 1), record(9, 4, 0)];
    let d = build(&recs).unwrap();
    assert_eq!(d.n_rows(), 3);
    assert_eq!(d.width(), FEATURE_WIDTH);
    assert_eq!(d.rows, vec![vec![100, 2, 10], vec![5, 0, 1], vec![9, 4, 0]]);
    assert_eq!(d.labels, vec![100, 5, 9]);
}

#[test]
fn build_with_bucketed_labels() {
    let recs = vec![record(1050, 0, 0), record(999, 0, 0)];
    let d = build_with(&recs, LabelRule::BalanceBucket(100)).unwrap();
    assert_eq!(d.labels, vec![10, 9]);
    let d = build_with(&recs, LabelRule::BalanceBucket(0)).unwrap();
    assert_eq!(d.labels, vec![1050, 999]);
}

#[test]
fn five_record_scenario_plans_every_model() {
    let d = prepare(five_raws(), LabelRule::Balance).unwrap();
    assert_eq!(d.n_rows(), 5);
    assert!(d.rows.iter().all(|r| r.len() == 3));
    assert_eq!(d.rows[3], vec![300, 4, 15]);
    let cfg = RunnerConfig::default_config();
    assert_eq!(cfg.clusters, KMEANS_CLUSTERS);
    assert_eq!(cfg.max_iterations, LOGREG_MAX_ITER);
    let p = plan(&d, &cfg);
    assert_eq!(p.reduction, Some(Ok(())));
    assert_eq!(p.classification, Some(Ok(())));
    assert_eq!(p.clustering, Some(Ok(())));
    assert_eq!(
        p.attempts(),
        vec![ModelKind::Reduction, ModelKind::Classification, ModelKind::Clustering]
    );
    assert!(p.into_refusals().is_empty());
}

#[test]
fn too_few_rows_fail_clustering_only() {
    let d = prepare(vec![raw(1, 1, 1), raw(2, 1, 1)], LabelRule::Balance).unwrap();
    let cfg = RunnerConfig::default_config();
    let p = plan(&d, &cfg);
    assert_eq!(p.clustering, Some(Err(ModelError::InsufficientData)));
    assert_eq!(p.reduction, Some(Ok(())));
    assert_eq!(p.classification, Some(Ok(())));
    assert_eq!(p.attempts(), vec![ModelKind::Reduction, ModelKind::Classification]);
    assert_eq!(
        p.into_refusals(),
        vec![ModelResult { kind: ModelKind::Clustering, outcome: Err(ModelError::InsufficientData) }]
    );
}

#[test]
fn reduction_needs_two_distinct_rows() {
    let one = build(&vec![record(1, 1, 1)]).unwrap();
    assert_eq!(check_reduction(&one), Err(ModelError::InsufficientData));
    let same = build(&vec![record(1, 1, 1), record(1, 1, 1)]).unwrap();
    assert_eq!(check_reduction(&same), Err(ModelError::InsufficientData));
    let differ = build(&vec![record(1, 1, 1), record(1, 1, 1), record(1, 2, 1)]).unwrap();
    assert_eq!(check_reduction(&differ), Ok(()));
}

#[test]
fn clustering_rejects_zero_clusters() {
    let d = build(&vec![record(1, 1, 1)]).unwrap();
    assert_eq!(check_clustering(&d, 0), Err(ModelError::InvalidParameter));
    assert_eq!(check_clustering(&d, 1), Ok(()));
}

#[test]
fn disabled_models_are_not_planned() {
    let d = build(&vec![record(1, 1, 1)]).unwrap();
    let cfg = RunnerConfig {
        enabled: EnabledModels { reduction: false, classification: true, clustering: false },
        clusters: 3,
        max_iterations: 150,
    };
    let p = plan(&d, &cfg);
    assert_eq!(p.reduction, None);
    assert_eq!(p.clustering, None);
    assert_eq!(p.attempts(), vec![ModelKind::Classification]);
    assert!(cfg.enabled.contains(ModelKind::Classification));
    assert!(!cfg.enabled.contains(ModelKind::Clustering));
}

#[test]
fn class_targets_split_at_mean() {
    assert_eq!(class_targets(&vec![100, 200, 150, 300, 250]), vec![false, true, false, true, true]);
    assert_eq!(class_targets(&vec![]), Vec::<bool>::new());
    assert_eq!(class_targets(&vec![u64::MAX, u64::MAX, 0]), vec![true, true, false]);
}

#[test]
fn model_outputs_are_checked_against_the_dataset() {
    let d = prepare(five_raws(), LabelRule::Balance).unwrap();
    assert_eq!(
        accept_clustering(&d, 3, vec![0, 1, 2, 1, 0]),
        Ok(ModelOutput::Clustered { assignments: vec![0, 1, 2, 1, 0] })
    );
    assert_eq!(accept_clustering(&d, 3, vec![0, 1, 3, 1, 0]), Err(ModelError::BadOutput));
    assert_eq!(accept_clustering(&d, 3, vec![0, 1]), Err(ModelError::BadOutput));
    assert_eq!(accept_reduction(&d, 5, 2), Ok(ModelOutput::Reduced { rows: 5, dims: 2 }));
    assert_eq!(accept_reduction(&d, 5, 4), Err(ModelError::BadOutput));
    assert_eq!(accept_classification(&d, vec![true; 4]), Err(ModelError::BadOutput));
    assert_eq!(
        accept_classification(&d, vec![true; 5]),
        Ok(ModelOutput::Classified { predictions: vec![true; 5] })
    );
}

#[test]
fn malformed_payload_aborts_with_nonzero_exit() {
    let prepared = prepare(vec![raw(-5, 1, 1)], LabelRule::Balance);
    assert_eq!(
        prepared.clone().unwrap_err(),
        PipelineError::Decode(DecodeError::Field {
            record: 0,
            field: Field::Balance,
            problem: Problem::Negative
        })
    );
    let outcome = conclude(prepared, vec![], Err(ProbeError::Rpc("down".to_string())));
    assert_eq!(exit_code(&outcome), 1);
}

#[test]
fn empty_payload_aborts() {
    let prepared = prepare(vec![], LabelRule::Balance);
    assert_eq!(prepared.unwrap_err(), PipelineError::Build(BuildError::EmptyInput));
}

#[test]
fn probe_failure_keeps_model_results() {
    let prepared = prepare(five_raws(), LabelRule::Balance);
    let models = vec![ModelResult {
        kind: ModelKind::Clustering,
        outcome: Ok(ModelOutput::Clustered { assignments: vec![0, 0, 1, 2, 1] }),
    }];
    let outcome = conclude(prepared, models, Err(ProbeError::Rpc("timeout".to_string())));
    assert_eq!(exit_code(&outcome), 0);
    let report = outcome.unwrap();
    assert_eq!(report.models.len(), 1);
    assert_eq!(report.models[0].kind, ModelKind::Clustering);
    assert_eq!(report.wealth, Err(ProbeError::Rpc("timeout".to_string())));
}

#[test]
fn probe_success_is_reported() {
    let prepared = prepare(five_raws(), LabelRule::Balance);
    let wealth = WealthSummary { balance: 9, largest_holders: vec![5, 3] };
    let outcome = conclude(prepared, vec![], Ok(wealth.clone()));
    assert_eq!(exit_code(&outcome), 0);
    assert_eq!(outcome.unwrap().wealth, Ok(wealth));
}
