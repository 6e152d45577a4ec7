//! Dynamic batch processor: coalesces pending requests per a
//! size-or-time trigger and hands them out again in order. The driving
//! loop and the dispatch calls run outside the library.

use vstd::prelude::*;
use vstd::string::*;

use crate::types::{GenerateRequest, GenerateResponse, GeneratedImage};

verus! {

/// Configuration for the batch processor.
#[derive(Debug, Clone)]
pub struct BatchConfig {
    /// Maximum batch size.
    pub max_batch_size: usize,
    /// Maximum wait before processing a partial batch (milliseconds).
    pub max_wait_ms: u64,
    /// Whether batching is enabled.
    pub enabled: bool,
}

impl Default for BatchConfig {
    fn default() -> (r: Self)
        ensures
            r.max_batch_size == 4,
            r.max_wait_ms == 100,
            r.enabled,
    {
        BatchConfig { max_batch_size: 4, max_wait_ms: 100, enabled: true }
    }
}

/// Two optional strings carrying the same text.
pub open spec fn opt_str_like(a: Option<String>, b: Option<String>) -> bool {
    match (a, b) {
        (Some(x), Some(y)) => x@ == y@,
        (None, None) => true,
        _ => false,
    }
}

/// Total image count requested by a sequence of requests.
pub open spec fn total_n(s: Seq<GenerateRequest>) -> int
    decreases s.len(),
{
    if s.len() == 0 {
        0int
    } else {
        total_n(s.drop_last()) + s.last().n
    }
}

/// Image count requested by the first `i` requests.
pub open spec fn prefix_n(s: Seq<GenerateRequest>, i: int) -> int {
    total_n(s.subrange(0, i))
}

/// The smaller of a position and a length: where a slice boundary
/// lands once the images run out.
pub open spec fn clip(x: int, len: int) -> int {
    if x < len {
        x
    } else {
        len
    }
}

/// Request totals are non-negative and grow with the prefix.
pub proof fn lemma_prefix_n_mono(s: Seq<GenerateRequest>, a: int, b: int)
    requires
        0 <= a <= b <= s.len(),
    ensures
        0 <= prefix_n(s, a) <= prefix_n(s, b),
    decreases b - a,
{
    lemma_total_n_nonneg(s.subrange(0, a));
    if a < b {
        lemma_prefix_n_mono(s, a + 1, b);
        assert(s.subrange(0, a + 1).drop_last() =~= s.subrange(0, a));
    }
}

proof fn lemma_total_n_nonneg(s: Seq<GenerateRequest>)
    ensures
        total_n(s) >= 0,
    decreases s.len(),
{
    if s.len() > 0 {
        lemma_total_n_nonneg(s.drop_last());
    }
}

/// One more request extends the prefix total by its image count.
pub proof fn lemma_prefix_n_step(s: Seq<GenerateRequest>, i: int)
    requires
        0 <= i < s.len(),
    ensures
        prefix_n(s, i + 1) == prefix_n(s, i) + s[i].n,
{
    assert(s.subrange(0, i + 1).drop_last() =~= s.subrange(0, i));
}

/// The whole sequence is its own prefix.
pub proof fn lemma_prefix_n_all(s: Seq<GenerateRequest>)
    ensures
        prefix_n(s, s.len() as int) == total_n(s),
{
    assert(s.subrange(0, s.len() as int) =~= s);
}

/// Batch processor for grouping multiple requests. Timestamps are
/// caller-supplied ticks.
#[derive(Debug)]
pub struct Batcher {
    config: BatchConfig,
    pending: Vec<GenerateRequest>,
    last_batch_time: u64,
}

impl Batcher {
    /// The configuration in force.
    pub closed spec fn spec_config(&self) -> BatchConfig {
        self.config
    }

    /// The requests waiting to be batched, in arrival order.
    pub closed spec fn spec_pending(&self) -> Seq<GenerateRequest> {
        self.pending@
    }

    /// The tick of the last completed batch.
    pub closed spec fn spec_last_batch_time(&self) -> u64 {
        self.last_batch_time
    }

    /// A batcher with the default configuration.
    pub fn new(now: u64) -> (r: Self)
        ensures
            r.spec_config().max_batch_size == 4,
            r.spec_config().max_wait_ms == 100,
            r.spec_config().enabled,
            r.spec_pending().len() == 0,
            r.spec_last_batch_time() == now,
    {
        Self::with_config(BatchConfig::default(), now)
    }

    /// A batcher with a custom configuration.
    pub fn with_config(config: BatchConfig, now: u64) -> (r: Self)
        ensures
            r.spec_config() == config,
            r.spec_pending().len() == 0,
            r.spec_last_batch_time() == now,
    {
        Batcher { config, pending: Vec::new(), last_batch_time: now }
    }

    /// Add a request to the batch: its position in the pending list,
    /// or `None` when batching is disabled and the caller must
    /// dispatch the request directly.
    pub fn add_request(&mut self, request: GenerateRequest) -> (r: Option<usize>)
        ensures
            final(self).spec_config() == old(self).spec_config(),
            final(self).spec_last_batch_time() == old(self).spec_last_batch_time(),
            old(self).spec_config().enabled ==> r == Some(old(self).spec_pending().len() as usize)
                && final(self).spec_pending() == old(self).spec_pending().push(request),
            !old(self).spec_config().enabled ==> r is None && final(self).spec_pending() == old(self).spec_pending(),
    {
        if !self.config.enabled {
            return None;
        }
        let pos = self.pending.len();
        self.pending.push(request);
        Some(pos)
    }

    /// Whether the batch should be processed now: something is
    /// pending, and either the batch is full or the wait has elapsed.
    pub fn should_process(&self, now: u64) -> (r: bool)
        ensures
            r == (self.spec_pending().len() > 0 && (self.spec_pending().len()
                >= self.spec_config().max_batch_size || ({
                let elapsed: int = if now >= self.spec_last_batch_time() {
                    now - self.spec_last_batch_time()
                } else {
                    0
                };
                elapsed >= self.spec_config().max_wait_ms
            }))),
    {
        if self.pending.len() == 0 {
            return false;
        }
        if self.pending.len() >= self.config.max_batch_size {
            return true;
        }
        let elapsed: u64 = if now >= self.last_batch_time {
            now - self.last_batch_time
        } else {
            0
        };
        elapsed >= self.config.max_wait_ms
    }

    /// Atomically drain the pending list in arrival order and reset
    /// the batch timestamp; an empty list leaves the timestamp alone.
    pub fn take_batch(&mut self, now: u64) -> (r: Vec<GenerateRequest>)
        ensures
            final(self).spec_config() == old(self).spec_config(),
            final(self).spec_pending().len() == 0,
            r@ == old(self).spec_pending(),
            old(self).spec_pending().len() > 0 ==> final(self).spec_last_batch_time() == now,
            old(self).spec_pending().len() == 0 ==> final(self).spec_last_batch_time() == old(self).spec_last_batch_time(),
    {
        if self.pending.len() == 0 {
            return Vec::new();
        }
        self.last_batch_time = now;
        let batch = self.pending.split_off(0);
        proof {
            assert(batch@ =~= old(self).spec_pending());
            assert(self.pending@ =~= Seq::<GenerateRequest>::empty());
        }
        batch
    }

    /// Get the number of pending requests.
    pub fn pending_count(&self) -> (r: usize)
        ensures
            r == self.spec_pending().len(),
    {
        self.pending.len()
    }

    /// Combine several requests into one call: the first request is
    /// the template and the image counts add up.
    pub fn combine_requests(requests: &Vec<GenerateRequest>) -> (r: GenerateRequest)
        requires
            requests@.len() > 0,
            total_n(requests@) <= u32::MAX,
        ensures
            r.n == total_n(requests@),
            r.prompt@ == requests@[0].prompt@,
            opt_str_like(r.negative_prompt, requests@[0].negative_prompt),
            r.width == requests@[0].width,
            r.height == requests@[0].height,
            opt_str_like(r.model, requests@[0].model),
            r.seed == requests@[0].seed,
            r.num_inference_steps == requests@[0].num_inference_steps,
            r.response_format@ == requests@[0].response_format@,
    {
        let len: usize = requests.len();
        let mut total: u32 = 0;
        let mut k: usize = 0;
        while k < len
            invariant
                k <= len,
                len == requests@.len(),
                total_n(requests@) <= u32::MAX,
                total == prefix_n(requests@, k as int),
            decreases len - k,
        {
            proof {
                lemma_prefix_n_step(requests@, k as int);
                lemma_prefix_n_mono(requests@, k + 1, len as int);
                lemma_prefix_n_all(requests@);
            }
            total = total + requests[k].n;
            k = k + 1;
        }
        proof {
            lemma_prefix_n_all(requests@);
        }
        let base: &GenerateRequest = &requests[0];
        GenerateRequest {
            prompt: String::from_str(base.prompt.as_str()),
            negative_prompt: match &base.negative_prompt {
                Some(s) => Some(String::from_str(s.as_str())),
                None => None,
            },
            n: total,
            width: base.width,
            height: base.height,
            model: match &base.model {
                Some(s) => Some(String::from_str(s.as_str())),
                None => None,
            },
            seed: base.seed,
            num_inference_steps: base.num_inference_steps,
            response_format: String::from_str(base.response_format.as_str()),
        }
    }

    /// Split one combined response back into per-caller responses:
    /// caller `i` receives the consecutive slice of images its own
    /// request asked for; slices past the end of the images come up
    /// short or empty.
    pub fn split_response(response: GenerateResponse, original_requests: &Vec<GenerateRequest>)
        -> (r: Vec<GenerateResponse>)
        requires
            total_n(original_requests@) <= usize::MAX,
        ensures
            r@.len() == original_requests@.len(),
            forall|i: int|
                0 <= i < r@.len() ==> {
                    let len = response.images@.len() as int;
                    let lo = clip(prefix_n(original_requests@, i), len);
                    let hi = clip(
                        prefix_n(original_requests@, i) + original_requests@[i].n,
                        len,
                    );
                    &&& #[trigger] r@[i].images@ == response.images@.subrange(lo, hi)
                    &&& opt_str_like(r@[i].model, response.model)
                },
    {
        let GenerateResponse { images, model } = response;
        let mut images = images;
        let ghost orig = images@;
        let images_len: usize = images.len();
        proof {
            assert(orig.len() == images_len);
        }
        let ghost reqs = original_requests@;
        let mut results: Vec<GenerateResponse> = Vec::new();
        let mut consumed: usize = 0;
        let mut i: usize = 0;
        proof {
            lemma_prefix_n_mono(reqs, 0, 0);
            assert(prefix_n(reqs, 0) == 0) by {
                assert(reqs.subrange(0, 0) =~= Seq::<GenerateRequest>::empty());
            }
        }
        while i < original_requests.len()
            invariant
                i <= original_requests@.len(),
                reqs == original_requests@,
                total_n(reqs) <= usize::MAX,
                results@.len() == i,
                consumed == clip(prefix_n(reqs, i as int), orig.len() as int),
                consumed <= orig.len(),
                orig.len() <= usize::MAX,
                images@ == orig.skip(consumed as int),
                forall|k: int|
                    0 <= k < i ==> {
                        let len = orig.len() as int;
                        let lo = clip(prefix_n(reqs, k), len);
                        let hi = clip(prefix_n(reqs, k) + reqs[k].n, len);
                        &&& #[trigger] results@[k].images@ == orig.subrange(lo, hi)
                        &&& opt_str_like(results@[k].model, model)
                    },
            decreases original_requests@.len() - i,
        {
            let ghost lo = consumed as int;
            proof {
                lemma_prefix_n_step(reqs, i as int);
                lemma_prefix_n_mono(reqs, 0, i as int);
                lemma_prefix_n_mono(reqs, i as int, i + 1);
                lemma_prefix_n_mono(reqs, i + 1, reqs.len() as int);
            }
            let want: usize = {
                let n_u32: u32 = original_requests[i].n;
                n_u32 as usize
            };
            let mut imgs: Vec<GeneratedImage> = Vec::new();
            let mut j: usize = 0;
            while j < want && images.len() > 0
                invariant
                    j <= want,
                    imgs@.len() == j,
                    consumed + j <= orig.len(),
                    imgs@ == orig.subrange(lo, lo + j),
                    images@ == orig.skip(consumed + j),
                    lo == consumed,
                decreases want - j,
            {
                let img = images.remove(0);
                proof {
                    assert(img == orig[consumed + j]);
                    assert(images@ =~= orig.skip(consumed + j + 1));
                    assert(imgs@.push(img) =~= orig.subrange(lo, lo + j + 1));
                }
                imgs.push(img);
                j = j + 1;
            }
            let m2: Option<String> = match &model {
                Some(s) => Some(String::from_str(s.as_str())),
                None => None,
            };
            proof {
                let len = orig.len() as int;
                let hi = clip(prefix_n(reqs, i as int) + reqs[i as int].n, len);
                if j == want {
                    assert(lo + j == clip(prefix_n(reqs, i + 1), len)) by {
                        if prefix_n(reqs, i as int) < len {
                            assert(lo == prefix_n(reqs, i as int));
                        }
                    }
                } else {
                    assert(images@.len() == 0);
                    assert(consumed + j == orig.len());
                }
                assert(imgs@ == orig.subrange(
                    clip(prefix_n(reqs, i as int), len),
                    clip(prefix_n(reqs, i as int) + reqs[i as int].n, len),
                ));
            }
            results.push(GenerateResponse { images: imgs, model: m2 });
            consumed = consumed + j;
            proof {
                assert(consumed == clip(prefix_n(reqs, i + 1), orig.len() as int));
            }
            i = i + 1;
        }
        results
    }
}

} // verus!
