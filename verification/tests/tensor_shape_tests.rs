use neuralnet::tensor::adapters::{image_batch_bytes, planar_image_bytes, validate_image_dimensions};
use neuralnet::tensor::errors::{TensorAdapterError, TensorError};
use neuralnet::tensor::shape::{
    check_conv_block_backward,
    check_element_count,
    check_same_shape,
    conv2d_output_shape,
    element_count,
    global_average_pool2d_output_shape,
    max_pool2d_output_shape,
    pool_gradient_targets,
    sample_len,
    tensor_offset,
};

#[test]
fn tensor_values_must_fill_the_shape() {
    assert_eq!(
        check_element_count((1, 1, 2, 2), 3),
        Err(TensorError::ShapeMismatch { expected: 4, actual: 3 })
    );
    assert_eq!(check_element_count((1, 1, 2, 2), 4), Ok(()));
    assert_eq!(element_count(usize::MAX, 2, 1, 0), usize::MAX);
    assert_eq!(element_count(3, 0, usize::MAX, 2), 0);
}

#[test]
fn tensor_offsets_are_row_major_and_bounded() {
    assert_eq!(tensor_offset((2, 1, 2, 2), 1, 0, 1, 1), Ok(7));
    assert_eq!(tensor_offset((2, 3, 4, 5), 1, 2, 3, 4), Ok(((1 * 3 + 2) * 4 + 3) * 5 + 4));
    assert_eq!(
        tensor_offset((2, 1, 2, 2), 2, 0, 0, 0),
        Err(TensorError::OutOfBounds { n: 2, c: 0, h: 0, w: 0 })
    );
}

#[test]
fn elementwise_operations_need_the_same_shape() {
    assert_eq!(
        check_same_shape((1, 1, 2, 2), (1, 2, 2, 2)),
        Err(TensorError::IncompatibleShapes { left: (1, 1, 2, 2), right: (1, 2, 2, 2) })
    );
    assert_eq!(check_same_shape((1, 2, 3, 4), (1, 2, 3, 4)), Ok(()));
}

#[test]
fn convolution_shapes_and_refusals() {
    assert_eq!(conv2d_output_shape((1, 1, 3, 3), (1, 1, 2, 2), Some(1), 1, 1), Ok((1, 1, 2, 2)));
    assert_eq!(conv2d_output_shape((2, 3, 9, 7), (4, 3, 3, 2), None, 2, 3), Ok((2, 4, 4, 2)));
    assert_eq!(
        conv2d_output_shape((1, 1, 3, 3), (1, 1, 2, 2), None, 0, 1),
        Err(TensorError::InvalidArgument("stride must be greater than zero"))
    );
    assert_eq!(
        conv2d_output_shape((1, 2, 3, 3), (1, 1, 2, 2), None, 1, 1),
        Err(TensorError::IncompatibleShapes { left: (1, 2, 3, 3), right: (1, 1, 2, 2) })
    );
    assert_eq!(
        conv2d_output_shape((1, 1, 3, 3), (0, 1, 2, 2), None, 1, 1),
        Err(TensorError::InvalidArgument("kernel shape must have non-zero output channels and spatial size"))
    );
    assert_eq!(
        conv2d_output_shape((1, 1, 1, 3), (1, 1, 2, 2), None, 1, 1),
        Err(TensorError::InvalidArgument("kernel spatial size cannot exceed input spatial size"))
    );
    assert_eq!(
        conv2d_output_shape((1, 1, 3, 3), (2, 1, 2, 2), Some(1), 1, 1),
        Err(TensorError::ShapeMismatch { expected: 2, actual: 1 })
    );
}

#[test]
fn pooling_shapes_and_refusals() {
    assert_eq!(max_pool2d_output_shape((1, 1, 4, 4), 2, 2, 2, 2), Ok((1, 1, 2, 2)));
    assert_eq!(max_pool2d_output_shape((1, 1, 2, 2), 2, 2, 1, 1), Ok((1, 1, 1, 1)));
    assert_eq!(
        max_pool2d_output_shape((1, 1, 2, 2), 0, 2, 1, 1),
        Err(TensorError::InvalidArgument("pooling window must be greater than zero"))
    );
    assert_eq!(
        max_pool2d_output_shape((1, 1, 2, 2), 2, 2, 1, 0),
        Err(TensorError::InvalidArgument("stride must be greater than zero"))
    );
    assert_eq!(
        max_pool2d_output_shape((1, 1, 2, 2), 3, 1, 1, 1),
        Err(TensorError::InvalidArgument("pooling window cannot exceed input spatial size"))
    );
    assert_eq!(global_average_pool2d_output_shape((1, 2, 2, 2)), Ok((1, 2, 1, 1)));
    assert_eq!(
        global_average_pool2d_output_shape((1, 2, 0, 2)),
        Err(TensorError::InvalidArgument("global average pooling requires non-zero spatial dimensions"))
    );
    assert_eq!(sample_len((2, 1, 2, 2)), 4);
    assert_eq!(sample_len((1, usize::MAX, 2, 3)), usize::MAX);
    assert_eq!(sample_len((1, usize::MAX, 2, 0)), 0);
}

#[test]
fn interleaved_images_become_channel_major() {
    // a 2x2 image of (r, g) pixels
    let image = vec![1u8, 10, 2, 20, 3, 30, 4, 40];
    assert_eq!(planar_image_bytes(&image, 2, 2, 2), Ok(vec![1, 2, 3, 4, 10, 20, 30, 40]));
    assert_eq!(planar_image_bytes(&image, 2, 4, 1), Ok(image.clone()));
    assert_eq!(planar_image_bytes(&image, 0, 2, 2), Err(TensorAdapterError::InvalidDimensions { height: 0, width: 2 }));
    assert_eq!(planar_image_bytes(&image, 2, 2, 0), Err(TensorAdapterError::InvalidChannelCount { channels: 0 }));
    assert_eq!(
        planar_image_bytes(&image, 2, 2, 3),
        Err(TensorAdapterError::InvalidImageSize { expected: 12, actual: 8 })
    );
    assert_eq!(validate_image_dimensions(3, 0), Err(TensorAdapterError::InvalidDimensions { height: 3, width: 0 }));
    assert_eq!(validate_image_dimensions(3, 1), Ok(()));
}

#[test]
fn image_batches_are_concatenated_after_checks() {
    let batch = vec![vec![1u8, 2, 3, 4], vec![5, 6, 7, 8]];
    assert_eq!(image_batch_bytes(&batch, 2, 2), Ok(vec![1, 2, 3, 4, 5, 6, 7, 8]));
    assert_eq!(image_batch_bytes(&Vec::new(), 2, 2), Err(TensorAdapterError::EmptyBatch));
    assert_eq!(
        image_batch_bytes(&vec![vec![1u8; 4], vec![2u8; 3], vec![3u8; 5]], 2, 2),
        Err(TensorAdapterError::InconsistentImageSize { index: 1, expected: 4, actual: 3 })
    );
    assert_eq!(
        image_batch_bytes(&batch, 2, 0),
        Err(TensorAdapterError::InvalidDimensions { height: 2, width: 0 })
    );
}

#[test]
fn pooled_gradients_route_to_their_pre_activation_values() {
    // two samples, one channel, a 2x2 map pooled to 1x2
    let indices = vec![(0usize, 0usize), (1, 1), (1, 0), (0, 1)];
    let targets = pool_gradient_targets((2, 1, 1, 2), (2, 1, 1, 2), 2, (2, 1, 2, 2), &indices);
    assert_eq!(targets, Ok(vec![0, 3, 4 + 2, 4 + 1]));

    assert_eq!(
        pool_gradient_targets((2, 1, 1, 2), (2, 1, 2, 1), 2, (2, 1, 2, 2), &indices),
        Err(TensorError::IncompatibleShapes { left: (2, 1, 1, 2), right: (2, 1, 2, 1) })
    );
    assert_eq!(
        pool_gradient_targets((2, 1, 1, 2), (2, 1, 1, 2), 1, (2, 1, 2, 2), &indices),
        Err(TensorError::IncompatibleShapes { left: (2, 1, 1, 2), right: (2, 1, 2, 2) })
    );
    assert_eq!(
        pool_gradient_targets((2, 1, 1, 2), (2, 1, 1, 2), 2, (2, 1, 2, 2), &indices[..3].to_vec()),
        Err(TensorError::ShapeMismatch { expected: 4, actual: 3 })
    );
    assert_eq!(
        pool_gradient_targets((2, 1, 1, 2), (2, 1, 1, 2), 2, (2, 1, 2, 2), &vec![(0, 0), (0, 2), (0, 0), (0, 0)]),
        Err(TensorError::InvalidArgument("pool indices exceed relu feature map bounds"))
    );
    assert_eq!(
        pool_gradient_targets((usize::MAX, 2, 1, 1), (usize::MAX, 2, 1, 1), usize::MAX, (usize::MAX, 2, 0, 0), &Vec::new()),
        Err(TensorError::InvalidArgument("pool index shape overflow"))
    );
}

#[test]
fn backward_checks_reject_huge_pooled_shapes_with_errors() {
    let huge = (usize::MAX, usize::MAX, 1, 1);
    assert_eq!(
        pool_gradient_targets(huge, (1, 1, 2, 2), 1, (1, 1, 4, 4), &vec![(0, 0); 4]),
        Err(TensorError::IncompatibleShapes { left: huge, right: (1, 1, 2, 2) })
    );
    assert_eq!(
        check_conv_block_backward(huge, huge, usize::MAX, (usize::MAX, 1, 4, 4), 4),
        Err(TensorError::InvalidArgument("pool index shape overflow"))
    );
    assert_eq!(
        check_conv_block_backward((1, 1, 2, 2), (1, 1, 2, 2), 1, (1, 1, 4, 4), 3),
        Err(TensorError::ShapeMismatch { expected: 4, actual: 3 })
    );
    assert_eq!(check_conv_block_backward((1, 1, 2, 2), (1, 1, 2, 2), 1, (1, 1, 4, 4), 4), Ok(()));
}
