use linfa::traits::{Fit, Predict};
use linfa::Dataset;
use linfa_bayes::GaussianNb;
use ndarray::{Array1, Array2};
use stock_bayes::classifier::{
    baseline, census, check_rows, has_width, summarize_training, ClassCount, TrainingSummary,
};
use stock_bayes::error::CustomError;
use stock_bayes::evaluation::{calculate_accuracy, Accuracy};
use stock_bayes::features::{labelled_rows, preprocess_data};
use stock_bayes::number::Decimal;
use stock_bayes::parser::StockData;

fn reading(price: i128, volume: u64) -> StockData {
    StockData {
        symbol: "IBM".to_string(),
        price: Decimal { units: price * 10_000 },
        volume,
        timestamp: String::new(),
    }
}

fn row(values: &[i128]) -> Vec<Decimal> {
    values.iter().map(|&v| Decimal { units: v * 10_000 }).collect()
}

fn matrix(rows: &Vec<Vec<Decimal>>) -> Array2<f64> {
    let width = rows[0].len();
    let flat: Vec<f64> = rows
        .iter()
        .flat_map(|r| r.iter().map(|d| d.units as f64 / 10_000.0))
        .collect();
    Array2::from_shape_vec((rows.len(), width), flat).unwrap()
}

fn fit_and_predict(rows: &Vec<Vec<Decimal>>, labels: &Vec<usize>) -> Vec<usize> {
    let summary = summarize_training(rows, labels).unwrap();
    let dataset = Dataset::new(matrix(rows), Array1::from(labels.clone()));
    let model: GaussianNb<f64, usize> = GaussianNb::params().fit(&dataset).unwrap();
    check_rows(&summary, rows).unwrap();
    model.predict(&matrix(rows)).to_vec()
}

#[test]
fn the_training_points_of_four_observations_are_classified() {
    let data = vec![reading(100, 10), reading(101, 12), reading(99, 8), reading(102, 20)];
    let (features, labels) = preprocess_data(data).unwrap();
    assert_eq!(labels, vec![1, 0, 1]);
    let rows = labelled_rows(features);
    assert_eq!(rows, vec![row(&[100, 10]), row(&[101, 12]), row(&[99, 8])]);
    let predicted = fit_and_predict(&rows, &labels);
    let counted = calculate_accuracy(&predicted, &labels).unwrap();
    assert_eq!(counted.total, 3);
    assert!(counted.correct >= 2);
    assert!(counted.correct as f64 / counted.total as f64 >= 0.66);
}

#[test]
fn training_points_are_classified_no_worse_than_by_the_majority() {
    let data = vec![
        reading(100, 10),
        reading(101, 12),
        reading(103, 14),
        reading(102, 9),
        reading(104, 15),
        reading(105, 16),
        reading(101, 5),
        reading(102, 11),
    ];
    let (features, labels) = preprocess_data(data).unwrap();
    let rows = labelled_rows(features);
    let summary = summarize_training(&rows, &labels).unwrap();
    let majority = baseline(&summary).unwrap();
    assert_eq!(majority, Accuracy { correct: 5, total: 7 });
    let predicted = fit_and_predict(&rows, &labels);
    let counted = calculate_accuracy(&predicted, &labels).unwrap();
    assert_eq!(counted.total, majority.total);
    assert!(counted.correct >= majority.correct);
}

#[test]
fn identical_labels_are_too_few_classes() {
    let rows = vec![row(&[1, 1]), row(&[2, 2]), row(&[3, 3]), row(&[4, 4])];
    assert_eq!(
        summarize_training(&rows, &vec![0, 0, 0, 0]).unwrap_err(),
        CustomError::InsufficientClasses
    );
    assert_eq!(
        summarize_training(&rows, &vec![1, 1, 1, 1]).unwrap_err(),
        CustomError::InsufficientClasses
    );
    assert_eq!(
        summarize_training(&Vec::new(), &Vec::new()).unwrap_err(),
        CustomError::InsufficientClasses
    );
    assert!(summarize_training(&rows, &vec![0, 0, 0, 1]).is_ok());
}

#[test]
fn the_whole_matrix_does_not_pair_up_with_the_labels() {
    let data = vec![reading(100, 10), reading(101, 12), reading(99, 8), reading(102, 20)];
    let (features, labels) = preprocess_data(data).unwrap();
    assert_eq!(summarize_training(&features, &labels).unwrap_err(), CustomError::ShapeMismatch);
    assert!(summarize_training(&labelled_rows(features), &labels).is_ok());
    assert_eq!(
        summarize_training(&vec![row(&[1])], &vec![0, 1]).unwrap_err(),
        CustomError::ShapeMismatch
    );
}

#[test]
fn rows_of_unequal_width_do_not_train() {
    let rows = vec![row(&[1, 1]), row(&[2]), row(&[3, 3])];
    assert_eq!(
        summarize_training(&rows, &vec![0, 1, 0]).unwrap_err(),
        CustomError::DimensionMismatch
    );
    assert_eq!(
        summarize_training(&rows, &vec![0, 0, 0]).unwrap_err(),
        CustomError::DimensionMismatch
    );
    assert_eq!(summarize_training(&rows, &vec![0, 1]).unwrap_err(), CustomError::ShapeMismatch);
}

#[test]
fn a_summary_holds_width_samples_and_classes() {
    let rows = vec![row(&[1, 1, 1]), row(&[2, 2, 2]), row(&[3, 3, 3]), row(&[4, 4, 4])];
    let summary = summarize_training(&rows, &vec![1, 0, 1, 1]).unwrap();
    assert_eq!(summary.dimension, 3);
    assert_eq!(summary.samples, 4);
    assert_eq!(
        summary.classes,
        vec![ClassCount { label: 0, count: 1 }, ClassCount { label: 1, count: 3 }]
    );
}

#[test]
fn a_census_lists_classes_by_ascending_label() {
    assert_eq!(census(&Vec::new()), Vec::new());
    assert_eq!(census(&vec![4]), vec![ClassCount { label: 4, count: 1 }]);
    assert_eq!(
        census(&vec![5, 2, 9, 2, 5, 2, 0]),
        vec![
            ClassCount { label: 0, count: 1 },
            ClassCount { label: 2, count: 3 },
            ClassCount { label: 5, count: 2 },
            ClassCount { label: 9, count: 1 },
        ]
    );
}

#[test]
fn a_row_of_another_width_is_refused() {
    let rows = vec![row(&[1, 1]), row(&[2, 2])];
    let summary = summarize_training(&rows, &vec![0, 1]).unwrap();
    assert_eq!(check_rows(&summary, &rows), Ok(()));
    assert_eq!(check_rows(&summary, &Vec::new()), Ok(()));
    assert_eq!(
        check_rows(&summary, &vec![row(&[1, 1]), row(&[1, 1, 1])]),
        Err(CustomError::DimensionMismatch)
    );
    assert_eq!(check_rows(&summary, &vec![row(&[1])]), Err(CustomError::DimensionMismatch));
    assert_eq!(check_rows(&summary, &vec![row(&[])]), Err(CustomError::DimensionMismatch));
}

#[test]
fn width_is_tested_row_by_row() {
    assert!(has_width(&Vec::new(), 3));
    assert!(has_width(&vec![row(&[1, 2]), row(&[3, 4])], 2));
    assert!(!has_width(&vec![row(&[1, 2]), row(&[3])], 2));
    assert!(!has_width(&vec![row(&[1, 2])], 1));
}

#[test]
fn the_baseline_is_the_share_of_the_largest_class() {
    let rows = vec![row(&[1]), row(&[2]), row(&[3]), row(&[4]), row(&[5]), row(&[6])];
    let summary = summarize_training(&rows, &vec![2, 0, 2, 1, 2, 1]).unwrap();
    assert_eq!(baseline(&summary), Some(Accuracy { correct: 3, total: 6 }));
    let summary = summarize_training(&rows, &vec![0, 0, 0, 1, 1, 1]).unwrap();
    assert_eq!(baseline(&summary), Some(Accuracy { correct: 3, total: 6 }));
    let nothing = TrainingSummary { dimension: 0, samples: 0, classes: Vec::new() };
    assert_eq!(baseline(&nothing), None);
}

#[test]
fn the_counts_of_a_summary_add_up_to_the_samples() {
    let rows = vec![row(&[1]), row(&[2]), row(&[3]), row(&[4]), row(&[5]), row(&[6])];
    let summary = summarize_training(&rows, &vec![2, 0, 2, 1, 2, 7]).unwrap();
    let total: usize = summary.classes.iter().map(|c| c.count).sum();
    assert_eq!(total, summary.samples);
    assert_eq!(total, 6);
}
