use stock_bayes::error::CustomError;
use stock_bayes::evaluation::{calculate_accuracy, Accuracy};

#[test]
fn test_calculate_accuracy() {
    let predictions = vec![1, 0, 1, 1];
    let target = vec![1, 0, 0, 1];
    let counted = calculate_accuracy(&predictions, &target).unwrap();
    let accuracy = counted.correct as f64 / counted.total as f64;
    assert!((accuracy - 0.75).abs() < std::f64::EPSILON);
}

#[test]
fn accuracy_is_agreements_over_length() {
    let counted = calculate_accuracy(&vec![1, 0, 1, 1], &vec![1, 0, 0, 1]).unwrap();
    assert_eq!(counted, Accuracy { correct: 3, total: 4 });
    let counted = calculate_accuracy(&vec![0, 0, 0], &vec![1, 1, 1]).unwrap();
    assert_eq!(counted, Accuracy { correct: 0, total: 3 });
    let counted = calculate_accuracy(&vec![7], &vec![7]).unwrap();
    assert_eq!(counted, Accuracy { correct: 1, total: 1 });
}

#[test]
fn predictions_equal_to_the_truth_are_wholly_accurate() {
    for labels in [vec![0], vec![1, 0, 1], vec![3, 3, 3, 3], vec![0, 1, 2, 3, 4, 5]] {
        let counted = calculate_accuracy(&labels, &labels).unwrap();
        assert_eq!(counted.correct, counted.total);
        assert_eq!(counted.total, labels.len());
        assert_eq!(counted.correct as f64 / counted.total as f64, 1.0);
    }
}

#[test]
fn one_order_for_both_keeps_the_accuracy() {
    let predicted = vec![1, 0, 1, 1, 0, 2];
    let actual = vec![1, 0, 0, 1, 1, 2];
    let before = calculate_accuracy(&predicted, &actual).unwrap();
    for order in [[5, 4, 3, 2, 1, 0], [2, 0, 5, 1, 4, 3], [0, 1, 2, 3, 4, 5], [1, 2, 3, 4, 5, 0]] {
        let p: Vec<usize> = order.iter().map(|&i| predicted[i]).collect();
        let a: Vec<usize> = order.iter().map(|&i| actual[i]).collect();
        assert_eq!(calculate_accuracy(&p, &a).unwrap(), before);
    }
    assert_eq!(calculate_accuracy(&actual, &predicted).unwrap(), before);
}

#[test]
fn lengths_that_differ_are_refused() {
    assert_eq!(calculate_accuracy(&vec![1, 0], &vec![1]).unwrap_err(), CustomError::LengthMismatch);
    assert_eq!(calculate_accuracy(&vec![], &vec![1]).unwrap_err(), CustomError::LengthMismatch);
    assert_eq!(calculate_accuracy(&vec![1], &vec![]).unwrap_err(), CustomError::LengthMismatch);
}

#[test]
fn nothing_to_evaluate_is_refused() {
    assert_eq!(calculate_accuracy(&vec![], &vec![]).unwrap_err(), CustomError::EmptyInput);
}
