use neuralnet::cnn::classifier::{CnnCoalescingPredictOptions, CnnImageClassifierError};
use neuralnet::cnn::coalescing::{CoalescingQueue, CoalescingResponders};

fn options(max_queue_size: usize, max_queue_delay_ms: u64) -> CnnCoalescingPredictOptions {
    CnnCoalescingPredictOptions {
        max_micro_batch_size: 8,
        max_queue_size,
        max_queue_delay_ms,
        enable_batch_preprocess: true,
    }
}

/// A stand-in model: the prediction of an image is its first byte.
fn predict(batch: &Vec<Vec<u8>>) -> Vec<u8> {
    batch.iter().map(|image| image[0]).collect()
}

#[test]
fn coalescing_queue_flushes_by_queue_size() {
    let mut queue: CoalescingQueue<u8> = CoalescingQueue::new(options(2, 50));
    assert!(!queue.enqueue(vec![1, 1], 10));
    assert_eq!(queue.pending_len(), 1);
    assert!(queue.enqueue(vec![2, 2], 11));
    let predictions = predict(queue.pending_batch());
    assert!(queue.complete_flush(predictions));
    assert_eq!(queue.pending_len(), 0);
    assert_eq!(queue.take_ready(), vec![1, 2]);
    assert!(queue.take_ready().is_empty());
    assert_eq!((queue.flushed_images(), queue.flush_count()), (2, 1));
}

#[test]
fn coalescing_queue_flushes_when_due() {
    let mut queue: CoalescingQueue<u8> = CoalescingQueue::new(options(64, 5));
    assert!(!queue.is_flush_due(100));
    assert!(!queue.enqueue(vec![7], 100));
    assert!(!queue.enqueue(vec![8], 103));
    assert!(!queue.is_flush_due(104));
    assert!(queue.is_flush_due(105));
    assert!(!queue.is_flush_due(90));
    let predictions = predict(queue.pending_batch());
    assert!(queue.complete_flush(predictions));
    assert!(!queue.complete_flush(Vec::new()));
    assert_eq!((queue.flushed_images(), queue.flush_count()), (2, 1));
    assert_eq!(queue.take_ready(), vec![7, 8]);

    let mut zero_delay: CoalescingQueue<u8> = CoalescingQueue::new(options(0, 0));
    assert!(zero_delay.enqueue(vec![3], 0));
    assert!(zero_delay.is_flush_due(0));
}

#[test]
fn coalescing_responders_match_predictions_in_request_order() {
    let mut responders: CoalescingResponders<&str> = CoalescingResponders::new();
    for name in ["a", "b", "c", "d"] {
        assert!(responders.accept(name).is_ok());
    }
    let first = responders.dispatch(vec![10, 20, 30]);
    assert_eq!(first, vec![("a", 10), ("b", 20), ("c", 30)]);
    assert_eq!(responders.waiting_len(), 1);
    let second = responders.dispatch(vec![40, 50]);
    assert_eq!(second, vec![("d", 40)]);
    assert_eq!(responders.waiting_len(), 0);
}

#[test]
fn coalescing_responders_fail_and_shut_down() {
    let mut responders: CoalescingResponders<u32> = CoalescingResponders::new();
    assert!(responders.accept(1).is_ok());
    assert!(responders.accept(2).is_ok());
    assert_eq!(responders.fail_all(), vec![1, 2]);
    assert_eq!(responders.waiting_len(), 0);
    responders.shut_down();
    assert!(responders.is_shutdown());
    assert!(matches!(
        responders.accept(3),
        Err(CnnImageClassifierError::InvalidConfiguration("coalescing scheduler is not accepting new requests"))
    ));
    assert_eq!(responders.waiting_len(), 0);
}

#[test]
fn coalesced_requests_each_get_their_own_prediction_across_flushes() {
    let mut queue: CoalescingQueue<u8> = CoalescingQueue::new(options(3, 1_000));
    let mut responders: CoalescingResponders<usize> = CoalescingResponders::new();
    let images: Vec<Vec<u8>> = vec![vec![11], vec![22], vec![33], vec![44], vec![55]];
    let mut delivered: Vec<(usize, u8)> = Vec::new();
    for (handle, image) in images.iter().enumerate() {
        responders.accept(handle).expect("accepting");
        if queue.enqueue(image.clone(), handle as u64) {
            let predictions = predict(queue.pending_batch());
            assert!(queue.complete_flush(predictions));
            delivered.extend(responders.dispatch(queue.take_ready()));
        }
    }
    let predictions = predict(queue.pending_batch());
    assert!(queue.complete_flush(predictions));
    delivered.extend(responders.dispatch(queue.take_ready()));
    assert_eq!(queue.flush_count(), 2);
    assert_eq!(delivered, vec![(0, 11), (1, 22), (2, 33), (3, 44), (4, 55)]);
    assert_eq!(responders.waiting_len(), 0);
}
