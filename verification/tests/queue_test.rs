//! Tests of the request queue and the batcher.

use generative_img_serving::{
    AppError, BatchConfig, Batcher, GenerateRequest, GenerateResponse, GeneratedImage,
    QueueConfig, RequestQueue, SubmitWait,
};

fn request(prompt: &str, n: u32) -> GenerateRequest {
    GenerateRequest {
        prompt: prompt.to_string(),
        negative_prompt: None,
        n,
        width: 512,
        height: 512,
        model: None,
        seed: None,
        num_inference_steps: None,
        response_format: "b64_json".to_string(),
    }
}

fn image(tag: &str) -> GeneratedImage {
    GeneratedImage {
        b64_json: Some(tag.to_string()),
        url: None,
        revised_prompt: None,
        seed: None,
    }
}

#[test]
fn test_queue_config_defaults() {
    let config = QueueConfig::default();
    assert_eq!(config.max_queue_size, 1000);
    assert_eq!(config.max_concurrent, 10);
    assert_eq!(config.timeout_ms, 120000);
}

#[test]
fn test_batch_config_defaults() {
    let config = BatchConfig::default();
    assert_eq!(config.max_batch_size, 4);
    assert_eq!(config.max_wait_ms, 100);
    assert!(config.enabled);
}

#[test]
fn test_batcher_creation() {
    let batcher = Batcher::new(0);
    assert_eq!(batcher.pending_count(), 0);
}

#[test]
fn test_batcher_with_custom_config() {
    let config = BatchConfig { max_batch_size: 8, max_wait_ms: 200, enabled: true };
    let batcher = Batcher::with_config(config, 0);
    assert_eq!(batcher.pending_count(), 0);
}

#[test]
fn test_batcher_disabled() {
    let config = BatchConfig { max_batch_size: 4, max_wait_ms: 100, enabled: false };
    let mut batcher = Batcher::with_config(config, 0);
    assert_eq!(batcher.add_request(request("p", 1)), None);
    assert!(!batcher.should_process(1000));
}

#[test]
fn test_queue_full() {
    // Two slots, one worker: of four submissions, two are admitted and
    // two are refused with QueueFull.
    let mut q = RequestQueue::with_config(QueueConfig {
        max_queue_size: 2,
        max_concurrent: 1,
        timeout_ms: 10_000,
    });
    assert!(q.try_admit().is_ok());
    assert!(q.try_admit().is_ok());
    assert!(matches!(q.try_admit(), Err(AppError::QueueFull)));
    assert!(matches!(q.try_admit(), Err(AppError::QueueFull)));
    assert_eq!(q.pending_count(), 2);
}

#[test]
fn test_queue_timeout_drains_pending() {
    let mut q = RequestQueue::with_config(QueueConfig {
        max_queue_size: 10,
        max_concurrent: 1,
        timeout_ms: 50,
    });
    q.try_admit().unwrap();
    let r = q.settle(SubmitWait::TimedOut);
    assert!(matches!(r, Err(AppError::Timeout(_))));
    assert_eq!(q.pending_count(), 0);
}

#[test]
fn test_queue_settle_outcomes() {
    let mut q = RequestQueue::new();
    q.try_admit().unwrap();
    q.try_admit().unwrap();
    let ok = q.settle(SubmitWait::Completed(Ok(GenerateResponse {
        images: vec![image("a")],
        model: None,
    })));
    assert_eq!(ok.unwrap().images.len(), 1);
    let cancelled = q.settle(SubmitWait::ChannelClosed);
    assert!(matches!(cancelled, Err(AppError::Internal(_))));
    assert_eq!(q.pending_count(), 0);
    assert_eq!(q.processed_count(), 2);
    let stats = q.stats();
    assert_eq!(stats.pending, 0);
    assert_eq!(stats.processed, 2);
}

#[test]
fn test_queue_permits_respect_cap() {
    let mut q = RequestQueue::with_config(QueueConfig {
        max_queue_size: 10,
        max_concurrent: 2,
        timeout_ms: 1000,
    });
    assert!(q.try_acquire_permit());
    assert!(q.try_acquire_permit());
    assert!(!q.try_acquire_permit());
    q.release_permit();
    assert!(q.try_acquire_permit());
}

#[test]
fn test_batcher_fan_out() {
    // Four requests arriving within 10 ms trigger a single batch, and
    // each caller's slot carries exactly its own request, in order.
    let mut batcher = Batcher::with_config(
        BatchConfig { max_batch_size: 4, max_wait_ms: 100, enabled: true },
        0,
    );
    let mut slots = Vec::new();
    for k in 0..4u32 {
        assert!(!batcher.should_process((k as u64) * 3));
        let slot = batcher.add_request(request(&format!("p{}", k), 1)).unwrap();
        slots.push(slot);
    }
    assert!(batcher.should_process(10));
    let batch = batcher.take_batch(10);
    assert_eq!(batch.len(), 4);
    for k in 0..4usize {
        assert_eq!(slots[k], k);
        assert_eq!(batch[k].prompt, format!("p{}", k));
    }
    assert_eq!(batcher.pending_count(), 0);
    assert!(!batcher.should_process(10));
}

#[test]
fn test_batcher_wait_trigger() {
    let mut batcher = Batcher::with_config(
        BatchConfig { max_batch_size: 4, max_wait_ms: 100, enabled: true },
        0,
    );
    batcher.add_request(request("p", 1)).unwrap();
    assert!(!batcher.should_process(99));
    assert!(batcher.should_process(100));
}

#[test]
fn test_combine_requests() {
    let requests = vec![request("first", 2), request("second", 3)];
    let combined = Batcher::combine_requests(&requests);
    assert_eq!(combined.n, 5);
    assert_eq!(combined.prompt, "first");
    assert_eq!(combined.width, 512);
    assert_eq!(combined.response_format, "b64_json");
}

#[test]
fn test_split_response() {
    let response = GenerateResponse {
        images: vec![image("a"), image("b"), image("c"), image("d"), image("e")],
        model: Some("m".to_string()),
    };
    let requests = vec![request("x", 2), request("y", 3)];
    let parts = Batcher::split_response(response, &requests);
    assert_eq!(parts.len(), 2);
    assert_eq!(parts[0].images.len(), 2);
    assert_eq!(parts[0].images[0].b64_json.as_deref(), Some("a"));
    assert_eq!(parts[0].images[1].b64_json.as_deref(), Some("b"));
    assert_eq!(parts[1].images.len(), 3);
    assert_eq!(parts[1].images[2].b64_json.as_deref(), Some("e"));
    assert_eq!(parts[0].model.as_deref(), Some("m"));
}

#[test]
fn test_split_response_short() {
    // A response with fewer images than requested: later callers come
    // up short or empty.
    let response = GenerateResponse { images: vec![image("a")], model: None };
    let requests = vec![request("x", 2), request("y", 2)];
    let parts = Batcher::split_response(response, &requests);
    assert_eq!(parts.len(), 2);
    assert_eq!(parts[0].images.len(), 1);
    assert_eq!(parts[1].images.len(), 0);
}
