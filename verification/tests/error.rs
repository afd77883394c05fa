use ollama_model_resolver::error::ResolverError;

fn s(text: &str) -> String {
    text.to_string()
}

#[test]
fn every_error_has_its_message() {
    let cases = vec![
        (ResolverError::Http(s("x")), "HTTP request failed: x"),
        (ResolverError::Json(s("x")), "JSON parsing failed: x"),
        (
            ResolverError::HtmlParse { url: s("u"), detail: s("d") },
            "failed to parse HTML from u: d",
        ),
        (ResolverError::NoSearchResults { query: s("q") }, "no models found matching 'q'"),
        (
            ResolverError::AmbiguousModel { query: s("q"), candidates: s("a, b") },
            "model search for 'q' did not produce an exact match; candidates: a, b",
        ),
        (ResolverError::NoTags { model: s("m") }, "no tags found for model 'm'"),
        (
            ResolverError::ManifestMissing { model: s("m"), tag: s("t"), detail: s("d") },
            "manifest not found for 'm:t': d",
        ),
        (
            ResolverError::ManifestUnavailable { model: s("m"), tag: s("t"), detail: s("d") },
            "registry manifest unavailable for 'm:t': d",
        ),
        (
            ResolverError::ManifestCloudOnly { model: s("m"), tag: s("t") },
            "cloud-only model — no local weights for 'm:t'",
        ),
        (
            ResolverError::ManifestPlatformRestricted { model: s("m"), tag: s("t"), status: 412 },
            "platform-restricted model for 'm:t' (registry returned 412)",
        ),
        (
            ResolverError::ManifestInvalid { model: s("m"), tag: s("t"), detail: s("d") },
            "invalid registry manifest for 'm:t': d",
        ),
        (
            ResolverError::NoUsableManifest { model: s("m"), attempts: s("- a: b") },
            "no usable manifest found for model 'm'. Tried manifests:\n- a: b",
        ),
        (ResolverError::RamDetection(s("x")), "failed to detect system RAM: x"),
        (ResolverError::DiskDetection(s("x")), "failed to detect disk space: x"),
        (
            ResolverError::OllamaUnreachable { base_url: s("u"), detail: s("d") },
            "ollama is not reachable at u: d",
        ),
        (
            ResolverError::PullFailed { model: s("m"), detail: s("d") },
            "ollama pull failed for 'm': d",
        ),
        (ResolverError::InvalidInput(s("x")), "invalid input: x"),
        (ResolverError::Other(s("x")), "x"),
    ];
    for (error, message) in cases {
        assert_eq!(error.message(), message);
    }
}
