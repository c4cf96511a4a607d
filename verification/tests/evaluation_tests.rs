use neuralnet::cnn::evaluation::{tally_evaluation, tally_training};

fn labels(values: &[&str]) -> Vec<String> {
    values.iter().map(|v| v.to_string()).collect()
}

fn predictions(values: &[Option<&str>]) -> Vec<Option<String>> {
    values.iter().map(|v| v.map(|s| s.to_string())).collect()
}

#[test]
fn evaluation_tally_counts_outcomes_per_label() {
    let expected = labels(&[" Cat", "dog", "cat ", "", "DOG", "bird"]);
    let predicted = predictions(&[Some("cat"), Some("cat"), None, Some("cat"), Some("dog"), Some("bird")]);
    let t = tally_evaluation(&expected, &predicted);

    assert_eq!(t.total_samples, 6);
    assert_eq!(t.evaluated_samples, 5);
    assert_eq!(t.skipped_samples, 1);
    assert_eq!(t.correct_predictions, 3);
    assert_eq!(t.unknown_predictions, 1);

    assert_eq!(t.per_label_total.get("cat"), Some(&2));
    assert_eq!(t.per_label_total.get("dog"), Some(&2));
    assert_eq!(t.per_label_total.get("bird"), Some(&1));
    assert_eq!(t.per_label_total.get(""), None);
    assert_eq!(t.per_label_correct.get("cat"), Some(&1));
    assert_eq!(t.per_label_correct.get("dog"), Some(&1));
    assert_eq!(t.per_label_correct.get("bird"), Some(&1));

    let cat_row = t.confusion_matrix.get("cat").expect("cat was expected");
    assert_eq!(cat_row.get("cat"), Some(&1));
    assert_eq!(cat_row.get("<unknown>"), Some(&1));
    let dog_row = t.confusion_matrix.get("dog").expect("dog was expected");
    assert_eq!(dog_row.get("cat"), Some(&1));
    assert_eq!(dog_row.get("dog"), Some(&1));
    assert!(t.confusion_matrix.get("").is_none());
}

#[test]
fn evaluation_tally_of_nothing_is_empty() {
    let t = tally_evaluation(&Vec::new(), &Vec::new());
    assert_eq!((t.total_samples, t.evaluated_samples, t.skipped_samples), (0, 0, 0));
    assert_eq!((t.correct_predictions, t.unknown_predictions), (0, 0));
    assert_eq!(t.per_label_total.len(), 0);
    assert_eq!(t.confusion_matrix.len(), 0);
}

#[test]
fn training_tally_counts_trained_and_skipped_examples() {
    let batches = vec![
        (" Cat ".to_string(), vec![true, false, true]),
        ("".to_string(), vec![true, true]),
        ("dog".to_string(), vec![true]),
        ("CAT".to_string(), vec![true]),
        ("bird".to_string(), vec![false]),
    ];
    let t = tally_training(&batches);
    assert_eq!(t.total_examples, 8);
    assert_eq!(t.trained_examples, 4);
    assert_eq!(t.skipped_examples, 4);
    assert_eq!(t.per_label_counts.get("cat"), Some(&3));
    assert_eq!(t.per_label_counts.get("dog"), Some(&1));
    assert_eq!(t.per_label_counts.get("bird"), None);
    assert_eq!(t.per_label_counts.get(""), None);

    let empty = tally_training(&Vec::new());
    assert_eq!((empty.total_examples, empty.trained_examples, empty.skipped_examples), (0, 0, 0));
}
