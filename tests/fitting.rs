use chain_telemetry::features::{Dataset, LabelRule};
use chain_telemetry::models::{
    accept_classification, accept_clustering, accept_reduction, class_targets, plan, ModelOutput,
    RunnerConfig,
};
use chain_telemetry::pipeline::prepare;
use chain_telemetry::record::RawRecord;
use linfa::traits::{Fit, Predict};
use linfa::DatasetBase;
use linfa_clustering::KMeans;
use linfa_logistic::LogisticRegression;
use linfa_reduction::Pca;
use ndarray::{Array1, Array2};

fn raw(balance: i128, accounts: usize, nodes: i128) -> RawRecord {
    RawRecord {
        balance: Some(balance),
        largest_accounts: Some(vec![1; accounts]),
        cluster_nodes: Some(nodes),
        slot_leaders: Some(vec![]),
        health_status: Some("ok".to_string()),
        block_production_rate: Some(1),
    }
}

fn scenario() -> Dataset {
    let raws = vec![raw(100, 2, 10), raw(200, 3, 12), raw(150, 1, 11), raw(300, 4, 15), raw(250, 2, 13)];
    prepare(raws, LabelRule::Balance).unwrap()
}

fn matrix(d: &Dataset) -> Array2<f64> {
    let flat: Vec<f64> = d.rows.iter().flatten().map(|v| *v as f64).collect();
    Array2::from_shape_vec((d.rows.len(), 3), flat).unwrap()
}

fn cluster(d: &Dataset, k: usize) -> Vec<usize> {
    let x = matrix(d);
    let model = KMeans::params(k).fit(&DatasetBase::from(x.clone())).unwrap();
    let assigned: Array1<usize> = model.predict(&x);
    assigned.to_vec()
}

#[test]
fn scenario_clusters_into_three() {
    let d = scenario();
    let cfg = RunnerConfig::default_config();
    assert_eq!(plan(&d, &cfg).clustering, Some(Ok(())));
    let assignments = cluster(&d, cfg.clusters);
    assert_eq!(assignments.len(), 5);
    assert!(assignments.iter().all(|c| *c < 3));
    let out = accept_clustering(&d, cfg.clusters, assignments.clone());
    assert_eq!(out, Ok(ModelOutput::Clustered { assignments }));
}

#[test]
fn clustering_is_reproducible() {
    let d = scenario();
    assert_eq!(cluster(&d, 3), cluster(&d, 3));
}

#[test]
fn scenario_classifies_and_reduces() {
    let d = scenario();
    let x = matrix(&d);
    let targets = Array1::from(class_targets(&d.labels));
    let fitted = LogisticRegression::default()
        .max_iterations(150)
        .fit(&DatasetBase::new(x.clone(), targets))
        .unwrap();
    let predicted: Array1<bool> = fitted.predict(&x);
    let out = accept_classification(&d, predicted.to_vec());
    assert!(out.is_ok());

    let pca = Pca::params(2).fit(&DatasetBase::from(x.clone())).unwrap();
    let reduced: Array2<f64> = pca.predict(&x);
    assert_eq!(
        accept_reduction(&d, reduced.nrows(), reduced.ncols()),
        Ok(ModelOutput::Reduced { rows: 5, dims: 2 })
    );
}
