//! Request, response and status records of the dispatch pipeline.

use vstd::prelude::*;

verus! {

/// Request to generate images.
///
/// The guidance scale of the wire format is a floating-point field;
/// the dispatch core never reads it, so it lives only in the outer
/// transport record and is not part of this model.
#[derive(Debug, Clone)]
pub struct GenerateRequest {
    /// The prompt to generate images from.
    pub prompt: String,
    /// Things to avoid.
    pub negative_prompt: Option<String>,
    /// Number of images to generate.
    pub n: u32,
    /// Image width.
    pub width: u32,
    /// Image height.
    pub height: u32,
    /// Model identifier.
    pub model: Option<String>,
    /// Random seed for reproducibility.
    pub seed: Option<i64>,
    /// Number of inference steps.
    pub num_inference_steps: Option<u32>,
    /// Response format: "b64_json", "url", or "file".
    pub response_format: String,
}

/// Generated image data.
#[derive(Debug, Clone)]
pub struct GeneratedImage {
    /// Base64 encoded image data.
    pub b64_json: Option<String>,
    /// URL to the image.
    pub url: Option<String>,
    /// Revised prompt if the model modified it.
    pub revised_prompt: Option<String>,
    /// Seed used for generation.
    pub seed: Option<i64>,
}

/// Response from image generation.
#[derive(Debug, Clone)]
pub struct GenerateResponse {
    /// List of generated images.
    pub images: Vec<GeneratedImage>,
    /// Model used for generation.
    pub model: Option<String>,
}

/// Backend status information.
#[derive(Debug, Clone)]
pub struct BackendStatus {
    pub name: String,
    pub protocol: String,
    pub endpoints: Vec<String>,
    pub healthy: bool,
    pub weight: u32,
    pub enabled: bool,
}

} // verus!
