use neuralnet::cnn::classifier::{
    class_index,
    plan_training_batch,
    TrainingBatchPlan,
    classifier_labels,
    plan_classifier,
    batch_preprocess_enabled,
    classifier_snapshot_payload,
    default_input_channels,
    exact_square_root,
    frame_classifier_snapshot,
    infer_square_dimensions_and_channels,
    plan_micro_batches,
    tensor_shape_element_count,
    validate_classifier_snapshot,
    ClassifierSnapshotShape,
    CnnBatchPredictOptions,
    CnnCoalescingPredictOptions,
    CnnImageClassifierError,
};
use neuralnet::cnn::feature_extractor::CnnFeatureExtractorError;
use neuralnet::cnn::image_sample::{horizontal_flip, index, random_crop_resize, resize_nearest, ImageSample};
use neuralnet::cnn::rng::TransformRng;
use neuralnet::tensor::errors::{TensorAdapterError, TensorError};

#[test]
fn square_shapes_are_inferred_from_byte_counts() {
    assert_eq!(infer_square_dimensions_and_channels(&[0u8; 64]), Some((8, 8, 1)));
    assert_eq!(infer_square_dimensions_and_channels(&[0u8; 192]), Some((8, 8, 3)));
    assert_eq!(infer_square_dimensions_and_channels(&[0u8; 100]), Some((10, 10, 1)));
    assert_eq!(infer_square_dimensions_and_channels(&[0u8; 12]), Some((2, 2, 3)));
    assert_eq!(infer_square_dimensions_and_channels(&[0u8; 1000]), None);
    assert_eq!(infer_square_dimensions_and_channels(&[]), None);
    assert_eq!(infer_square_dimensions_and_channels(&[0u8; 8]), None);
    assert_eq!(infer_square_dimensions_and_channels(&[0u8; 16]), Some((4, 4, 1)));
    assert_eq!(infer_square_dimensions_and_channels(&[0u8; 36]), Some((6, 6, 1)));
    assert_eq!(infer_square_dimensions_and_channels(&[0u8; 32]), None);
}

#[test]
fn exact_square_roots() {
    assert_eq!(exact_square_root(0), Some(0));
    assert_eq!(exact_square_root(1), Some(1));
    assert_eq!(exact_square_root(144), Some(12));
    assert_eq!(exact_square_root(145), None);
    assert_eq!(exact_square_root(4_294_967_296), Some(65_536));
    assert_eq!(exact_square_root(usize::MAX), None);
}

#[test]
fn tensor_shape_element_count_saturates() {
    assert_eq!(tensor_shape_element_count((2, 3, 4, 5)), 120);
    assert_eq!(tensor_shape_element_count((usize::MAX, 2, 1, 1)), usize::MAX);
    assert_eq!(tensor_shape_element_count((0, usize::MAX, usize::MAX, 3)), 0);
    assert_eq!(default_input_channels(), 1);
}

#[test]
fn batch_preprocess_setting_switches_off_on_known_words() {
    assert!(batch_preprocess_enabled(None));
    assert!(batch_preprocess_enabled(Some("1")));
    assert!(batch_preprocess_enabled(Some("yes")));
    for off in ["0", " FALSE ", "no", "Off", "legacy"] {
        assert!(!batch_preprocess_enabled(Some(off)));
    }
    let options = CnnBatchPredictOptions::with_preprocess_setting(Some("off"));
    assert_eq!(options.max_micro_batch_size, 32);
    assert!(!options.enable_batch_preprocess);
    let coalescing = CnnCoalescingPredictOptions::with_preprocess_setting(None);
    assert_eq!(coalescing.max_queue_size, 64);
    assert_eq!(coalescing.max_queue_delay_ms, 2);
    assert!(coalescing.enable_batch_preprocess);
}

#[test]
fn micro_batches_cover_images_and_share_shapes() {
    let images = vec![vec![0u8; 64], vec![1u8; 64], vec![2u8; 64], vec![3u8; 192], vec![4u8; 64]];
    let options = CnnBatchPredictOptions { max_micro_batch_size: 2, enable_batch_preprocess: true };
    let plans = plan_micro_batches(&images, options, 1);
    assert_eq!(plans.len(), 3);
    assert_eq!((plans[0].start, plans[0].end), (0, 2));
    assert_eq!(plans[0].shared_shape, Some((8, 8, 1)));
    assert_eq!((plans[1].start, plans[1].end), (2, 4));
    assert_eq!(plans[1].shared_shape, None);
    assert_eq!((plans[2].start, plans[2].end), (4, 5));
    assert_eq!(plans[2].shared_shape, Some((8, 8, 1)));

    let options = CnnBatchPredictOptions { max_micro_batch_size: 0, enable_batch_preprocess: false };
    let plans = plan_micro_batches(&images, options, 1);
    assert_eq!(plans.len(), 5);
    assert!(plans.iter().all(|p| p.end - p.start == 1 && p.shared_shape.is_none()));
    let rgb_plans = plan_micro_batches(&images, CnnBatchPredictOptions { max_micro_batch_size: 8, enable_batch_preprocess: true }, 3);
    assert_eq!(rgb_plans.len(), 1);
    assert_eq!(rgb_plans[0].shared_shape, None);
    assert!(plan_micro_batches(&Vec::new(), options, 1).is_empty());
}

#[test]
fn classifier_snapshots_are_framed_by_magic() {
    let framed = frame_classifier_snapshot(&[9, 8, 7]);
    assert_eq!(framed, vec![b'C', b'N', b'N', b'1', 9, 8, 7]);
    assert_eq!(classifier_snapshot_payload("m.bin", &framed), Ok(vec![9, 8, 7]));
    assert_eq!(
        classifier_snapshot_payload("m.bin", b"CNN2xx"),
        Err("invalid CNN classifier snapshot magic in 'm.bin'".to_string())
    );
    assert!(classifier_snapshot_payload("m.bin", b"CN").is_err());
}

fn good_shape() -> ClassifierSnapshotShape {
    ClassifierSnapshotShape {
        class_label_count: 2,
        label_map_len: 2,
        input_channels: 1,
        block_kernel_shapes: vec![(8, 1, 3, 3), (16, 8, 3, 3)],
        block_bias_lens: vec![8, 16],
        head_input_dim: 16,
        head_output_dim: 2,
    }
}

#[test]
fn classifier_snapshot_shapes_are_validated_in_order() {
    assert_eq!(validate_classifier_snapshot("m.bin", &good_shape()), Ok(()));

    let mut s = good_shape();
    s.class_label_count = 1;
    assert_eq!(
        validate_classifier_snapshot("m.bin", &s),
        Err("invalid CNN classifier snapshot 'm.bin' (requires at least two class labels)".to_string())
    );
    let mut s = good_shape();
    s.block_bias_lens = vec![8, 15];
    assert_eq!(
        validate_classifier_snapshot("m.bin", &s),
        Err("invalid CNN classifier snapshot 'm.bin' (feature block 1 channels and bias mismatch)".to_string())
    );
    let mut s = good_shape();
    s.block_bias_lens = vec![8];
    assert_eq!(
        validate_classifier_snapshot("m.bin", &s),
        Err("invalid CNN classifier snapshot 'm.bin' (feature block kernels/biases length mismatch)".to_string())
    );
    let mut s = good_shape();
    s.input_channels = 3;
    assert_eq!(
        validate_classifier_snapshot("m.bin", &s),
        Err("invalid CNN classifier snapshot 'm.bin' (first feature block input channels and model input channels mismatch)".to_string())
    );
    let mut s = good_shape();
    s.head_input_dim = 8;
    assert_eq!(
        validate_classifier_snapshot("m.bin", &s),
        Err("invalid CNN classifier snapshot 'm.bin' (head dimensions do not match model state)".to_string())
    );
    let mut s = good_shape();
    s.block_kernel_shapes = Vec::new();
    s.block_bias_lens = Vec::new();
    assert_eq!(
        validate_classifier_snapshot("m.bin", &s),
        Err("invalid CNN classifier snapshot 'm.bin' (feature block stack is empty)".to_string())
    );
    let mut s = good_shape();
    s.label_map_len = 3;
    assert_eq!(
        validate_classifier_snapshot("m.bin", &s),
        Err("invalid CNN classifier snapshot 'm.bin' (label map and labels mismatch)".to_string())
    );
}

#[test]
fn classifier_error_messages() {
    assert_eq!(
        CnnImageClassifierError::UnsupportedImageShape { byte_len: 1000 }.message(),
        "unsupported image shape for CNN classifier (expected square bytes with 1, 3, or 4 channels): 1000 bytes"
    );
    assert_eq!(
        CnnImageClassifierError::InputChannelMismatch { expected: 1, actual: 3 }.message(),
        "cnn classifier input channel mismatch: expected 1, got 3"
    );
    assert_eq!(
        CnnImageClassifierError::GradientTensorShapeMismatch { expected: (1, 2, 3, 4), actual: (4, 3, 2, 1) }.message(),
        "cnn classifier tensor gradient shape mismatch: expected (1, 2, 3, 4), got (4, 3, 2, 1)"
    );
    assert_eq!(
        CnnImageClassifierError::UnknownLabel("zebra".to_string()).message(),
        "unknown CNN classifier label: zebra"
    );
    let adapter: CnnImageClassifierError = TensorAdapterError::EmptyBatch.into();
    assert_eq!(adapter.message(), "cnn classifier adapter error: cannot build tensor from empty image batch");
    let tensor: CnnImageClassifierError = TensorError::InvalidArgument("x").into();
    assert_eq!(tensor.message(), "cnn classifier tensor error: invalid tensor argument: x");
    assert_eq!(
        CnnFeatureExtractorError::UnsupportedImageShape { byte_len: 1000 }.message(),
        "unsupported image shape for CNN extractor (expected square bytes with 1, 3, or 4 channels): 1000 bytes"
    );
    let extractor: CnnFeatureExtractorError = TensorError::InvalidArgument("y").into();
    assert_eq!(extractor.message(), "cnn extractor tensor error: invalid tensor argument: y");
}

#[test]
fn image_samples_flip_and_resize() {
    let bytes: Vec<u8> = (0u8..12).collect();
    let sample = ImageSample::from_square_image_bytes(&bytes).expect("2x2 rgb image");
    assert_eq!((sample.height, sample.width, sample.channels), (2, 2, 3));
    assert!(ImageSample::from_square_image_bytes(&[1u8; 7]).is_none());

    let mut flipped = sample.clone();
    horizontal_flip(&mut flipped);
    assert_eq!(flipped.bytes, vec![3, 4, 5, 0, 1, 2, 9, 10, 11, 6, 7, 8]);
    horizontal_flip(&mut flipped);
    assert_eq!(flipped, sample);

    assert_eq!(index(4, 3, 1, 2, 2), ((2 * 4 + 1) * 3) + 2);

    let gray = vec![1u8, 2, 3, 4];
    let up = resize_nearest(&gray, 2, 2, 4, 4, 1);
    assert_eq!(up, vec![1, 1, 2, 2, 1, 1, 2, 2, 3, 3, 4, 4, 3, 3, 4, 4]);
    let down = resize_nearest(&up, 4, 4, 2, 2, 1);
    assert_eq!(down, gray);
    assert!(resize_nearest(&gray, 2, 2, 0, 3, 1).is_empty());
}

#[test]
fn random_crop_resize_draws_a_square_and_scales_it_back() {
    let bytes: Vec<u8> = (10u8..19).collect();
    let source = ImageSample { height: 3, width: 3, channels: 1, bytes: bytes.clone() };

    // seed 2 draws a side of 2 at (1, 0)
    let mut sample = source.clone();
    let mut rng = TransformRng::new(2);
    random_crop_resize(&mut sample, 2, &mut rng);
    assert_eq!((sample.height, sample.width, sample.channels), (3, 3, 1));
    assert_eq!(sample.bytes, vec![11, 11, 12, 11, 11, 12, 14, 14, 15]);
    assert_eq!(rng.next_u64(), 8836381484286226498);

    // a crop as large as the image keeps it and draws nothing
    let mut whole = source.clone();
    let mut rng = TransformRng::new(7);
    random_crop_resize(&mut whole, 3, &mut rng);
    assert_eq!(whole, source);
    assert_eq!(rng.next_u64(), 7575888327);

    // an image two pixels across is left alone
    let mut small = ImageSample { height: 2, width: 5, channels: 1, bytes: (0u8..10).collect() };
    let mut rng = TransformRng::new(7);
    random_crop_resize(&mut small, 2, &mut rng);
    assert_eq!(small.bytes, (0u8..10).collect::<Vec<u8>>());
    assert_eq!(rng.next_u64(), 7575888327);
}

#[test]
fn classifier_plan_normalizes_labels_and_chains_block_shapes() {
    let labels: Vec<String> = vec![" Animal_Cat", "animal_dog", "", "ANIMAL_CAT ", "bird"]
        .into_iter()
        .map(String::from)
        .collect();
    assert_eq!(classifier_labels(&labels), vec!["animal_cat", "animal_dog", "bird"]);

    let (plan_labels, shapes) = plan_classifier(&labels, 16, 16, 3, &vec![4, 8], 5, 3).expect("a valid configuration");
    assert_eq!(plan_labels, vec!["animal_cat", "animal_dog", "bird"]);
    assert_eq!(shapes, vec![(4, 3, 5, 3), (8, 4, 5, 3)]);
}

#[test]
fn classifier_plan_reports_each_configuration_problem() {
    let two: Vec<String> = vec!["animal_cat".to_string(), "animal_dog".to_string()];
    let refusal = |r: Result<(Vec<String>, Vec<(usize, usize, usize, usize)>), CnnImageClassifierError>| match r {
        Err(CnnImageClassifierError::InvalidConfiguration(m)) => m,
        other => panic!("expected a configuration error, got {other:?}"),
    };
    assert_eq!(refusal(plan_classifier(&two, 0, 16, 1, &vec![2], 3, 3)), "input height and width must be greater than zero");
    assert_eq!(refusal(plan_classifier(&two, 16, 16, 0, &vec![2], 3, 3)), "input channels must be greater than zero");
    assert_eq!(refusal(plan_classifier(&two, 16, 16, 1, &vec![2], 3, 0)), "kernel height and width must be greater than zero");
    assert_eq!(
        refusal(plan_classifier(&two, 16, 16, 1, &Vec::new(), 3, 3)),
        "feature channel configuration must contain at least one layer"
    );
    assert_eq!(refusal(plan_classifier(&two, 16, 16, 1, &vec![2, 0], 3, 3)), "feature channel counts must be greater than zero");
    let one: Vec<String> = vec!["cat".to_string(), " CAT".to_string(), "  ".to_string()];
    assert_eq!(refusal(plan_classifier(&one, 16, 16, 1, &vec![2], 3, 3)), "at least two distinct class labels are required");
}

#[test]
fn training_batches_find_their_class_and_shared_shape() {
    let labels: Vec<String> = vec!["animal_cat".to_string(), "animal_dog".to_string()];
    assert_eq!(class_index(&labels, " Animal_Dog ").ok(), Some(1));
    match class_index(&labels, "bird") {
        Err(CnnImageClassifierError::UnknownLabel(l)) => assert_eq!(l, "bird"),
        other => panic!("expected an unknown label, got {other:?}"),
    }

    let gray = vec![vec![1u8; 16], vec![2u8; 16]];
    let plan = plan_training_batch(&labels, "animal_cat", &gray, 1, true).expect("a valid batch");
    assert_eq!(plan, TrainingBatchPlan { class_index: 0, shared_shape: Some((4, 4, 1)) });
    let plan = plan_training_batch(&labels, "animal_cat", &gray, 1, false).expect("a valid batch");
    assert_eq!(plan.shared_shape, None);
    let mixed = vec![vec![1u8; 16], vec![2u8; 9]];
    assert_eq!(plan_training_batch(&labels, "animal_dog", &mixed, 1, true).expect("a valid batch").shared_shape, None);
    let rgb = vec![vec![1u8; 12]];
    assert_eq!(plan_training_batch(&labels, "animal_dog", &rgb, 1, true).expect("a valid batch").shared_shape, None);

    match plan_training_batch(&labels, "animal_cat", &Vec::new(), 1, true) {
        Err(CnnImageClassifierError::InvalidConfiguration(m)) => assert_eq!(m, "cannot train on an empty image batch"),
        other => panic!("expected an empty batch error, got {other:?}"),
    }
    assert!(matches!(
        plan_training_batch(&labels, "fish", &gray, 1, true),
        Err(CnnImageClassifierError::UnknownLabel(_))
    ));
}

#[test]
fn planned_class_labels_are_found_at_their_index() {
    let labels: Vec<String> = vec!["  Zebra", "ant", "ZEBRA", "Bee  "].into_iter().map(String::from).collect();
    let planned = classifier_labels(&labels);
    assert_eq!(planned, vec!["zebra", "ant", "bee"]);
    for (i, label) in planned.iter().enumerate() {
        assert_eq!(class_index(&planned, label).ok(), Some(i));
    }
}

#[test]
fn resizing_to_the_same_size_keeps_the_image() {
    let image: Vec<u8> = (0u8..24).collect();
    assert_eq!(resize_nearest(&image, 4, 3, 4, 3, 2), image);
}

#[test]
fn resizing_to_an_empty_image_needs_no_source_pixels() {
    assert!(resize_nearest(&[], 0, 0, 0, 3, 1).is_empty());
    assert!(resize_nearest(&[], 0, 0, 2, 2, 0).is_empty());
    assert!(resize_nearest(&[], 0, 5, 4, 0, 3).is_empty());
}
