//! xAI Grok Imagine stills: the request rules and the reading of its
//! `/v1/images/generations` response.

use vstd::prelude::*;
use super::{GenAiError, GenAiErrorModel, GeneratedImage, ImageRequest, decode_image, base64_standard_decode};

verus! {

pub const DEFAULT_MODEL: &'static str = "grok-imagine-image-quality";

pub const MAX_REFERENCE_IMAGES: usize = 7;

pub const MAX_IMAGES_PER_REQUEST: u8 = 10;

/// Grok's request rules, checked in order: 1..=10 images and at most 7
/// reference images.
pub open spec fn check_request_spec(n: u8, refs: nat) -> Option<GenAiErrorModel> {
    if n == 0 || n > MAX_IMAGES_PER_REQUEST {
        Some(GenAiErrorModel::GrokCount { n })
    } else if refs > MAX_REFERENCE_IMAGES {
        Some(GenAiErrorModel::GrokReferences { count: refs as usize })
    } else {
        None
    }
}

/// Refuse what Grok cannot honour (see [`check_request_spec`]).
pub fn check_request(req: &ImageRequest) -> (r: Result<(), GenAiError>)
    ensures
        match check_request_spec(req.n, req.reference_images@.len()) {
            Some(e) => r matches Err(f) && f@ == e,
            None => r is Ok,
        },
{
    if req.n == 0 || req.n > MAX_IMAGES_PER_REQUEST {
        return Err(GenAiError::GrokCount { n: req.n });
    }
    if req.reference_images.len() > MAX_REFERENCE_IMAGES {
        return Err(GenAiError::GrokReferences { count: req.reference_images.len() });
    }
    Ok(())
}

/// Where a returned image's bytes come from.
#[derive(Debug)]
pub enum ImageSource {
    /// Decoded from the response's `b64_json`.
    Bytes(Vec<u8>),
    /// To be downloaded from the provider's CDN.
    Download(String),
}

/// Read one entry of the response: `b64_json` wins over `url`; one of them
/// must be there.
pub fn image_source(b64_json: Option<&str>, url: Option<&str>) -> (r: Result<ImageSource, GenAiError>)
    ensures
        match (b64_json, url) {
            (Some(b), _) => match base64_standard_decode(b@) {
                Some(v) => r matches Ok(ImageSource::Bytes(w)) && w@ == v,
                None => r matches Err(e) && e@ is InvalidBase64,
            },
            (None, Some(u)) => r matches Ok(ImageSource::Download(d)) && d@ == u@,
            (None, None) => r matches Err(e) && e@ is GrokNoSource,
        },
{
    match (b64_json, url) {
        (Some(b), _) => Ok(ImageSource::Bytes(decode_image(b)?)),
        (None, Some(u)) => Ok(ImageSource::Download(crate::script::owned(u))),
        (None, None) => Err(GenAiError::GrokNoSource),
    }
}

/// An empty `data` array means the call produced nothing.
pub fn check_nonempty(count: usize) -> (r: Result<(), GenAiError>)
    ensures
        count == 0 ==> (r matches Err(e) && e@ is GrokNoImages),
        count > 0 ==> r is Ok,
{
    if count == 0 {
        Err(GenAiError::GrokNoImages)
    } else {
        Ok(())
    }
}

} // verus!
