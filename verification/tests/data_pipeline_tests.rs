use neuralnet::cnn::cnn_trainer::{group_labeled_images, CnnEvaluationSample, CnnTrainerBatch};
use neuralnet::cnn::data_pipeline::{CnnDataLoader, CnnDataLoaderOptions, LabeledImageRecord};
use neuralnet::cnn::rng::{fisher_yates_shuffle, TransformRng};

fn five_records() -> Vec<LabeledImageRecord> {
    vec![
        LabeledImageRecord::new("a", vec![1u8; 64]),
        LabeledImageRecord::new("b", vec![2u8; 64]),
        LabeledImageRecord::new("c", vec![3u8; 64]),
        LabeledImageRecord::new("d", vec![4u8; 64]),
        LabeledImageRecord::new("e", vec![5u8; 64]),
    ]
}

#[test]
fn dataloader_drop_last_and_shuffle_are_stable() {
    let records = vec![
        LabeledImageRecord::new("a", vec![1u8; 64]),
        LabeledImageRecord::new("b", vec![2u8; 64]),
        LabeledImageRecord::new("c", vec![3u8; 64]),
        LabeledImageRecord::new("d", vec![4u8; 64]),
        LabeledImageRecord::new("e", vec![5u8; 64]),
    ];
    let loader = CnnDataLoader::new(
        records,
        CnnDataLoaderOptions {
            batch_size: 2,
            shuffle: true,
            drop_last: true,
            seed: 123,
            prefetch_hint: 2,
        },
    );

    let epoch0 = loader.epoch_batches(0);
    let epoch0_again = loader.epoch_batches(0);

    assert_eq!(epoch0, epoch0_again);
    assert_eq!(epoch0.len(), 2);
    assert!(epoch0.iter().all(|batch| batch.records.len() == 2));
}

#[test]
fn epoch_without_drop_last_visits_every_record_once() {
    let loader = CnnDataLoader::new(
        five_records(),
        CnnDataLoaderOptions { batch_size: 2, shuffle: true, drop_last: false, seed: 7, prefetch_hint: 2 },
    );
    for epoch in 0..4u64 {
        let batches = loader.epoch_batches(epoch);
        assert_eq!(batches.len(), 3);
        assert_eq!(batches[0].records.len(), 2);
        assert_eq!(batches[1].records.len(), 2);
        assert_eq!(batches[2].records.len(), 1);
        let mut labels: Vec<String> = batches
            .iter()
            .flat_map(|b| b.records.iter().map(|r| r.label.clone()))
            .collect();
        labels.sort();
        assert_eq!(labels, vec!["a", "b", "c", "d", "e"]);
    }
}

#[test]
fn epoch_without_shuffle_keeps_record_order() {
    let loader = CnnDataLoader::new(
        five_records(),
        CnnDataLoaderOptions { batch_size: 0, shuffle: false, drop_last: false, seed: 1, prefetch_hint: 2 },
    );
    let batches = loader.epoch_batches(3);
    assert_eq!(batches.len(), 5);
    let labels: Vec<&str> = batches.iter().map(|b| b.records[0].label.as_str()).collect();
    assert_eq!(labels, vec!["a", "b", "c", "d", "e"]);
}

#[test]
fn dataloader_options_default_values() {
    let options = CnnDataLoaderOptions::default();
    assert_eq!(options.batch_size, 16);
    assert!(options.shuffle);
    assert!(!options.drop_last);
    assert_eq!(options.seed, 1);
    assert_eq!(options.prefetch_hint, 2);
}

#[test]
fn dataloader_from_samples_and_len() {
    let samples = vec![("x".to_string(), vec![1u8, 2]), ("y".to_string(), vec![3u8])];
    let loader = CnnDataLoader::from_samples(&samples, CnnDataLoaderOptions::default());
    assert_eq!(loader.len(), 2);
    assert!(!loader.is_empty());
    let empty = CnnDataLoader::new(Vec::new(), CnnDataLoaderOptions::default());
    assert!(empty.is_empty());
    assert!(empty.epoch_batches(0).is_empty());
}

#[test]
fn transform_rng_replaces_zero_seed_and_steps_xorshift() {
    let mut rng = TransformRng::new(1);
    let first = rng.next_u64();
    let mut x: u64 = 1;
    x ^= x << 13;
    x ^= x >> 7;
    x ^= x << 17;
    assert_eq!(first, x);

    let mut zero = TransformRng::new(0);
    let mut replaced = TransformRng::new(0x9E37_79B9_7F4A_7C15);
    assert_eq!(zero.next_u64(), replaced.next_u64());
}

#[test]
fn transform_rng_inclusive_draw_stays_in_range() {
    let mut rng = TransformRng::new(99);
    for _ in 0..100 {
        let v = rng.next_inclusive(3, 7);
        assert!((3..=7).contains(&v));
    }
    assert_eq!(rng.next_inclusive(5, 5), 5);
    assert_eq!(rng.next_inclusive(9, 2), 9);
}

#[test]
fn fisher_yates_shuffle_permutes() {
    let mut values: Vec<usize> = (0..20).collect();
    fisher_yates_shuffle(&mut values, 42);
    let mut sorted = values.clone();
    sorted.sort();
    assert_eq!(sorted, (0..20).collect::<Vec<usize>>());
    let mut again: Vec<usize> = (0..20).collect();
    fisher_yates_shuffle(&mut again, 42);
    assert_eq!(values, again);
}

#[test]
fn label_groups_are_sorted_trimmed_and_keep_image_order() {
    let samples = vec![
        ("  Dog ".to_string(), vec![1u8]),
        ("cat".to_string(), vec![2u8]),
        ("   ".to_string(), vec![3u8]),
        ("DOG".to_string(), vec![4u8]),
        ("bird".to_string(), vec![5u8]),
        ("Cat".to_string(), vec![6u8]),
    ];
    let groups = group_labeled_images(&samples);
    let labels: Vec<&str> = groups.iter().map(|g| g.label.as_str()).collect();
    assert_eq!(labels, vec!["bird", "cat", "dog"]);
    assert_eq!(groups[0].samples, vec![vec![5u8]]);
    assert_eq!(groups[1].samples, vec![vec![2u8], vec![6u8]]);
    assert_eq!(groups[2].samples, vec![vec![1u8], vec![4u8]]);
}

#[test]
fn epoch_as_label_batches_groups_each_batch() {
    let records = vec![
        LabeledImageRecord::new("b", vec![1u8]),
        LabeledImageRecord::new("a", vec![2u8]),
        LabeledImageRecord::new("b", vec![3u8]),
        LabeledImageRecord::new(" ", vec![4u8]),
        LabeledImageRecord::new("A", vec![5u8]),
    ];
    let loader = CnnDataLoader::new(
        records,
        CnnDataLoaderOptions { batch_size: 3, shuffle: false, drop_last: false, seed: 1, prefetch_hint: 2 },
    );
    let batches = loader.epoch_as_label_batches(0);
    let labels: Vec<&str> = batches.iter().map(|b| b.label.as_str()).collect();
    assert_eq!(labels, vec!["a", "b", "a"]);
    assert_eq!(batches[0].samples, vec![vec![2u8]]);
    assert_eq!(batches[1].samples, vec![vec![1u8], vec![3u8]]);
    assert_eq!(batches[2].samples, vec![vec![5u8]]);
}

#[test]
fn trainer_batch_and_evaluation_sample_constructors() {
    let batch = CnnTrainerBatch::new("animal_cat", vec![vec![1u8, 2], vec![3u8]]);
    assert_eq!(batch.label, "animal_cat");
    assert_eq!(batch.samples.len(), 2);
    let sample = CnnEvaluationSample::new("animal_dog", vec![9u8; 4]);
    assert_eq!(sample.expected_label, "animal_dog");
    assert_eq!(sample.image, vec![9u8; 4]);
}

#[test]
fn unshuffled_epoch_batches_keep_the_sample_order() {
    let samples: Vec<(String, Vec<u8>)> = (0u8..7)
        .map(|i| (format!("label_{}", i % 3), vec![i; 4]))
        .collect();
    let options = CnnDataLoaderOptions { batch_size: 3, shuffle: false, drop_last: false, seed: 9, prefetch_hint: 1 };
    let loader = CnnDataLoader::from_samples(&samples, options.clone());
    assert_eq!(loader.len(), samples.len());
    for epoch in [0u64, 1, 5] {
        let batches = loader.epoch_batches(epoch);
        assert_eq!(batches.iter().map(|b| b.records.len()).collect::<Vec<_>>(), vec![3, 3, 1]);
        let joined: Vec<LabeledImageRecord> = batches.into_iter().flat_map(|b| b.records).collect();
        let expected: Vec<LabeledImageRecord> = samples
            .iter()
            .map(|(label, image)| LabeledImageRecord { label: label.clone(), image: image.clone() })
            .collect();
        assert_eq!(joined, expected);
    }
}

#[test]
fn transform_rngs_with_the_same_seed_compare_equal() {
    let mut a = TransformRng::new(5);
    let b = TransformRng::new(5);
    assert_eq!(a, b);
    a.next_u64();
    assert_ne!(a, b);
}
