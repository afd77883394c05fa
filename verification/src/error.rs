//! What can go wrong, and the message for each case.

use vstd::prelude::*;

use crate::text;

verus! {

#[derive(Debug, Clone, PartialEq, Eq)]
pub enum ResolverError {
    /// A request failed; holds the HTTP client's own message.
    Http(String),
    /// A JSON document could not be read; holds the parser's own message.
    Json(String),
    HtmlParse { url: String, detail: String },
    NoSearchResults { query: String },
    AmbiguousModel { query: String, candidates: String },
    NoTags { model: String },
    ManifestMissing { model: String, tag: String, detail: String },
    ManifestUnavailable { model: String, tag: String, detail: String },
    ManifestCloudOnly { model: String, tag: String },
    ManifestPlatformRestricted { model: String, tag: String, status: u16 },
    ManifestInvalid { model: String, tag: String, detail: String },
    NoUsableManifest { model: String, attempts: String },
    RamDetection(String),
    DiskDetection(String),
    OllamaUnreachable { base_url: String, detail: String },
    PullFailed { model: String, detail: String },
    InvalidInput(String),
    Other(String),
}

/// A `ResolverError` with its texts as character sequences.
pub enum ErrorView {
    Http(Seq<char>),
    Json(Seq<char>),
    HtmlParse { url: Seq<char>, detail: Seq<char> },
    NoSearchResults { query: Seq<char> },
    AmbiguousModel { query: Seq<char>, candidates: Seq<char> },
    NoTags { model: Seq<char> },
    ManifestMissing { model: Seq<char>, tag: Seq<char>, detail: Seq<char> },
    ManifestUnavailable { model: Seq<char>, tag: Seq<char>, detail: Seq<char> },
    ManifestCloudOnly { model: Seq<char>, tag: Seq<char> },
    ManifestPlatformRestricted { model: Seq<char>, tag: Seq<char>, status: u16 },
    ManifestInvalid { model: Seq<char>, tag: Seq<char>, detail: Seq<char> },
    NoUsableManifest { model: Seq<char>, attempts: Seq<char> },
    RamDetection(Seq<char>),
    DiskDetection(Seq<char>),
    OllamaUnreachable { base_url: Seq<char>, detail: Seq<char> },
    PullFailed { model: Seq<char>, detail: Seq<char> },
    InvalidInput(Seq<char>),
    Other(Seq<char>),
}

impl View for ResolverError {
    type V = ErrorView;

    open spec fn view(&self) -> ErrorView {
        match self {
            ResolverError::Http(s) => ErrorView::Http(s@),
            ResolverError::Json(s) => ErrorView::Json(s@),
            ResolverError::HtmlParse { url, detail } => ErrorView::HtmlParse {
                url: url@,
                detail: detail@,
            },
            ResolverError::NoSearchResults { query } => ErrorView::NoSearchResults {
                query: query@,
            },
            ResolverError::AmbiguousModel { query, candidates } => ErrorView::AmbiguousModel {
                query: query@,
                candidates: candidates@,
            },
            ResolverError::NoTags { model } => ErrorView::NoTags { model: model@ },
            ResolverError::ManifestMissing { model, tag, detail } => ErrorView::ManifestMissing {
                model: model@,
                tag: tag@,
                detail: detail@,
            },
            ResolverError::ManifestUnavailable { model, tag, detail } =>
                ErrorView::ManifestUnavailable { model: model@, tag: tag@, detail: detail@ },
            ResolverError::ManifestCloudOnly { model, tag } => ErrorView::ManifestCloudOnly {
                model: model@,
                tag: tag@,
            },
            ResolverError::ManifestPlatformRestricted { model, tag, status } =>
                ErrorView::ManifestPlatformRestricted { model: model@, tag: tag@, status: *status },
            ResolverError::ManifestInvalid { model, tag, detail } => ErrorView::ManifestInvalid {
                model: model@,
                tag: tag@,
                detail: detail@,
            },
            ResolverError::NoUsableManifest { model, attempts } => ErrorView::NoUsableManifest {
                model: model@,
                attempts: attempts@,
            },
            ResolverError::RamDetection(s) => ErrorView::RamDetection(s@),
            ResolverError::DiskDetection(s) => ErrorView::DiskDetection(s@),
            ResolverError::OllamaUnreachable { base_url, detail } => ErrorView::OllamaUnreachable {
                base_url: base_url@,
                detail: detail@,
            },
            ResolverError::PullFailed { model, detail } => ErrorView::PullFailed {
                model: model@,
                detail: detail@,
            },
            ResolverError::InvalidInput(s) => ErrorView::InvalidInput(s@),
            ResolverError::Other(s) => ErrorView::Other(s@),
        }
    }
}

impl ErrorView {
    /// The message of each error.
    pub open spec fn message(self) -> Seq<char> {
        match self {
            ErrorView::Http(s) => "HTTP request failed: "@ + s,
            ErrorView::Json(s) => "JSON parsing failed: "@ + s,
            ErrorView::HtmlParse { url, detail } => "failed to parse HTML from "@ + url + ": "@
                + detail,
            ErrorView::NoSearchResults { query } => "no models found matching '"@ + query + "'"@,
            ErrorView::AmbiguousModel { query, candidates } => "model search for '"@ + query
                + "' did not produce an exact match; candidates: "@ + candidates,
            ErrorView::NoTags { model } => "no tags found for model '"@ + model + "'"@,
            ErrorView::ManifestMissing { model, tag, detail } => "manifest not found for '"@ + model
                + ":"@ + tag + "': "@ + detail,
            ErrorView::ManifestUnavailable { model, tag, detail } =>
                "registry manifest unavailable for '"@ + model + ":"@ + tag + "': "@ + detail,
            ErrorView::ManifestCloudOnly { model, tag } =>
                "cloud-only model — no local weights for '"@ + model + ":"@ + tag + "'"@,
            ErrorView::ManifestPlatformRestricted { model, tag, status } =>
                "platform-restricted model for '"@ + model + ":"@ + tag + "' (registry returned "@
                + text::decimal(status as nat) + ")"@,
            ErrorView::ManifestInvalid { model, tag, detail } => "invalid registry manifest for '"@
                + model + ":"@ + tag + "': "@ + detail,
            ErrorView::NoUsableManifest { model, attempts } =>
                "no usable manifest found for model '"@ + model + "'. Tried manifests:\n"@
                + attempts,
            ErrorView::RamDetection(s) => "failed to detect system RAM: "@ + s,
            ErrorView::DiskDetection(s) => "failed to detect disk space: "@ + s,
            ErrorView::OllamaUnreachable { base_url, detail } => "ollama is not reachable at "@
                + base_url + ": "@ + detail,
            ErrorView::PullFailed { model, detail } => "ollama pull failed for '"@ + model + "': "@
                + detail,
            ErrorView::InvalidInput(s) => "invalid input: "@ + s,
            ErrorView::Other(s) => s,
        }
    }
}

impl ResolverError {
    /// The message that tells the user what went wrong.
    pub fn message(&self) -> (r: String)
        ensures
            r@ == self@.message(),
    {
        match self {
            ResolverError::Http(s) => "HTTP request failed: ".to_string().concat(s.as_str()),
            ResolverError::Json(s) => "JSON parsing failed: ".to_string().concat(s.as_str()),
            ResolverError::HtmlParse { url, detail } => {
                "failed to parse HTML from ".to_string().concat(url.as_str()).concat(": ").concat(
                    detail.as_str(),
                )
            },
            ResolverError::NoSearchResults { query } => {
                "no models found matching '".to_string().concat(query.as_str()).concat("'")
            },
            ResolverError::AmbiguousModel { query, candidates } => {
                "model search for '".to_string().concat(query.as_str()).concat(
                    "' did not produce an exact match; candidates: ",
                ).concat(candidates.as_str())
            },
            ResolverError::NoTags { model } => {
                "no tags found for model '".to_string().concat(model.as_str()).concat("'")
            },
            ResolverError::ManifestMissing { model, tag, detail } => {
                "manifest not found for '".to_string().concat(model.as_str()).concat(":").concat(
                    tag.as_str(),
                ).concat("': ").concat(detail.as_str())
            },
            ResolverError::ManifestUnavailable { model, tag, detail } => {
                "registry manifest unavailable for '".to_string().concat(model.as_str()).concat(
                    ":",
                ).concat(tag.as_str()).concat("': ").concat(detail.as_str())
            },
            ResolverError::ManifestCloudOnly { model, tag } => {
                "cloud-only model — no local weights for '".to_string().concat(
                    model.as_str(),
                ).concat(":").concat(tag.as_str()).concat("'")
            },
            ResolverError::ManifestPlatformRestricted { model, tag, status } => {
                "platform-restricted model for '".to_string().concat(model.as_str()).concat(
                    ":",
                ).concat(tag.as_str()).concat("' (registry returned ").concat(
                    text::decimal_text(*status as u64).as_str(),
                ).concat(")")
            },
            ResolverError::ManifestInvalid { model, tag, detail } => {
                "invalid registry manifest for '".to_string().concat(model.as_str()).concat(
                    ":",
                ).concat(tag.as_str()).concat("': ").concat(detail.as_str())
            },
            ResolverError::NoUsableManifest { model, attempts } => {
                "no usable manifest found for model '".to_string().concat(model.as_str()).concat(
                    "'. Tried manifests:\n",
                ).concat(attempts.as_str())
            },
            ResolverError::RamDetection(s) => {
                "failed to detect system RAM: ".to_string().concat(s.as_str())
            },
            ResolverError::DiskDetection(s) => {
                "failed to detect disk space: ".to_string().concat(s.as_str())
            },
            ResolverError::OllamaUnreachable { base_url, detail } => {
                "ollama is not reachable at ".to_string().concat(base_url.as_str()).concat(
                    ": ",
                ).concat(detail.as_str())
            },
            ResolverError::PullFailed { model, detail } => {
                "ollama pull failed for '".to_string().concat(model.as_str()).concat("': ").concat(
                    detail.as_str(),
                )
            },
            ResolverError::InvalidInput(s) => "invalid input: ".to_string().concat(s.as_str()),
            ResolverError::Other(s) => s.clone(),
        }
    }
}

/// A message holds every text that the error carries: what was asked for, what was
/// found and why it failed. A tag is given as the name of its model, a colon and the
/// tag.
pub proof fn law_message_tells_what_is_known(e: ErrorView)
    ensures
        match e {
            ErrorView::Http(s) => text::contains(e.message(), s),
            ErrorView::Json(s) => text::contains(e.message(), s),
            ErrorView::RamDetection(s) => text::contains(e.message(), s),
            ErrorView::DiskDetection(s) => text::contains(e.message(), s),
            ErrorView::InvalidInput(s) => text::contains(e.message(), s),
            ErrorView::Other(s) => e.message() == s,
            ErrorView::HtmlParse { url, detail } => text::contains(e.message(), url)
                && text::contains(e.message(), detail),
            ErrorView::NoSearchResults { query } => text::contains(
                e.message(),
                "'"@ + query + "'"@,
            ),
            ErrorView::AmbiguousModel { query, candidates } => text::contains(
                e.message(),
                "'"@ + query + "'"@,
            ) && text::contains(e.message(), candidates),
            ErrorView::NoTags { model } => text::contains(e.message(), "'"@ + model + "'"@),
            ErrorView::ManifestMissing { model, tag, detail } => text::contains(
                e.message(),
                "'"@ + model + ":"@ + tag + "'"@,
            ) && text::contains(e.message(), detail),
            ErrorView::ManifestUnavailable { model, tag, detail } => text::contains(
                e.message(),
                "'"@ + model + ":"@ + tag + "'"@,
            ) && text::contains(e.message(), detail),
            ErrorView::ManifestCloudOnly { model, tag } => text::contains(
                e.message(),
                "'"@ + model + ":"@ + tag + "'"@,
            ),
            ErrorView::ManifestPlatformRestricted { model, tag, status } => text::contains(
                e.message(),
                "'"@ + model + ":"@ + tag + "'"@,
            ) && text::contains(e.message(), text::decimal(status as nat)),
            ErrorView::ManifestInvalid { model, tag, detail } => text::contains(
                e.message(),
                "'"@ + model + ":"@ + tag + "'"@,
            ) && text::contains(e.message(), detail),
            ErrorView::NoUsableManifest { model, attempts } => text::contains(
                e.message(),
                "'"@ + model + "'"@,
            ) && text::contains(e.message(), attempts),
            ErrorView::OllamaUnreachable { base_url, detail } => text::contains(
                e.message(),
                base_url,
            ) && text::contains(e.message(), detail),
            ErrorView::PullFailed { model, detail } => text::contains(
                e.message(),
                "'"@ + model + "'"@,
            ) && text::contains(e.message(), detail),
        },
{
    reveal_strlit("'");
    reveal_strlit("': ");
    let m = e.message();
    let none = Seq::<char>::empty();
    match e {
        ErrorView::Http(s) => {
            text::lemma_part_occurs(m, "HTTP request failed: "@, s, none);
        },
        ErrorView::Json(s) => {
            text::lemma_part_occurs(m, "JSON parsing failed: "@, s, none);
        },
        ErrorView::RamDetection(s) => {
            text::lemma_part_occurs(m, "failed to detect system RAM: "@, s, none);
        },
        ErrorView::DiskDetection(s) => {
            text::lemma_part_occurs(m, "failed to detect disk space: "@, s, none);
        },
        ErrorView::InvalidInput(s) => {
            text::lemma_part_occurs(m, "invalid input: "@, s, none);
        },
        ErrorView::Other(_) => {},
        ErrorView::HtmlParse { url, detail } => {
            let head = "failed to parse HTML from "@;
            text::lemma_part_occurs(m, head, url, ": "@ + detail);
            text::lemma_part_occurs(m, head + url + ": "@, detail, none);
        },
        ErrorView::NoSearchResults { query } => {
            reveal_strlit("no models found matching '");
            let head = "no models found matching '"@;
            text::lemma_part_occurs(m, head.drop_last(), "'"@ + query + "'"@, none);
        },
        ErrorView::AmbiguousModel { query, candidates } => {
            reveal_strlit("model search for '");
            reveal_strlit("' did not produce an exact match; candidates: ");
            let head = "model search for '"@;
            let middle = "' did not produce an exact match; candidates: "@;
            text::lemma_part_occurs(
                m,
                head.drop_last(),
                "'"@ + query + "'"@,
                middle.skip(1) + candidates,
            );
            text::lemma_part_occurs(m, head + query + middle, candidates, none);
        },
        ErrorView::NoTags { model } => {
            reveal_strlit("no tags found for model '");
            let head = "no tags found for model '"@;
            text::lemma_part_occurs(m, head.drop_last(), "'"@ + model + "'"@, none);
        },
        ErrorView::ManifestMissing { model, tag, detail } => {
            reveal_strlit("manifest not found for '");
            let head = "manifest not found for '"@;
            let name = "'"@ + model + ":"@ + tag + "'"@;
            text::lemma_part_occurs(m, head.drop_last(), name, "': "@.skip(1) + detail);
            text::lemma_part_occurs(m, head + model + ":"@ + tag + "': "@, detail, none);
        },
        ErrorView::ManifestUnavailable { model, tag, detail } => {
            reveal_strlit("registry manifest unavailable for '");
            let head = "registry manifest unavailable for '"@;
            let name = "'"@ + model + ":"@ + tag + "'"@;
            text::lemma_part_occurs(m, head.drop_last(), name, "': "@.skip(1) + detail);
            text::lemma_part_occurs(m, head + model + ":"@ + tag + "': "@, detail, none);
        },
        ErrorView::ManifestCloudOnly { model, tag } => {
            reveal_strlit("cloud-only model — no local weights for '");
            let head = "cloud-only model — no local weights for '"@;
            text::lemma_part_occurs(m, head.drop_last(), "'"@ + model + ":"@ + tag + "'"@, none);
        },
        ErrorView::ManifestPlatformRestricted { model, tag, status } => {
            reveal_strlit("platform-restricted model for '");
            reveal_strlit("' (registry returned ");
            let head = "platform-restricted model for '"@;
            let middle = "' (registry returned "@;
            let number = text::decimal(status as nat);
            let name = "'"@ + model + ":"@ + tag + "'"@;
            text::lemma_part_occurs(m, head.drop_last(), name, middle.skip(1) + number + ")"@);
            text::lemma_part_occurs(m, head + model + ":"@ + tag + middle, number, ")"@);
        },
        ErrorView::ManifestInvalid { model, tag, detail } => {
            reveal_strlit("invalid registry manifest for '");
            let head = "invalid registry manifest for '"@;
            let name = "'"@ + model + ":"@ + tag + "'"@;
            text::lemma_part_occurs(m, head.drop_last(), name, "': "@.skip(1) + detail);
            text::lemma_part_occurs(m, head + model + ":"@ + tag + "': "@, detail, none);
        },
        ErrorView::NoUsableManifest { model, attempts } => {
            reveal_strlit("no usable manifest found for model '");
            reveal_strlit("'. Tried manifests:\n");
            let head = "no usable manifest found for model '"@;
            let middle = "'. Tried manifests:\n"@;
            text::lemma_part_occurs(
                m,
                head.drop_last(),
                "'"@ + model + "'"@,
                middle.skip(1) + attempts,
            );
            text::lemma_part_occurs(m, head + model + middle, attempts, none);
        },
        ErrorView::OllamaUnreachable { base_url, detail } => {
            let head = "ollama is not reachable at "@;
            text::lemma_part_occurs(m, head, base_url, ": "@ + detail);
            text::lemma_part_occurs(m, head + base_url + ": "@, detail, none);
        },
        ErrorView::PullFailed { model, detail } => {
            reveal_strlit("ollama pull failed for '");
            let head = "ollama pull failed for '"@;
            text::lemma_part_occurs(
                m,
                head.drop_last(),
                "'"@ + model + "'"@,
                "': "@.skip(1) + detail,
            );
            text::lemma_part_occurs(m, head + model + "': "@, detail, none);
        },
    }
}

/// The kind of an error is told by the words that its message begins with.
pub proof fn law_message_begins_with_its_kind(e: ErrorView)
    ensures
        match e {
            ErrorView::Http(_) => text::has_prefix(e.message(), "HTTP request failed: "@),
            ErrorView::Json(_) => text::has_prefix(e.message(), "JSON parsing failed: "@),
            ErrorView::HtmlParse { .. } => text::has_prefix(
                e.message(),
                "failed to parse HTML from "@,
            ),
            ErrorView::NoSearchResults { .. } => text::has_prefix(
                e.message(),
                "no models found matching '"@,
            ),
            ErrorView::AmbiguousModel { .. } => text::has_prefix(
                e.message(),
                "model search for '"@,
            ),
            ErrorView::NoTags { .. } => text::has_prefix(
                e.message(),
                "no tags found for model '"@,
            ),
            ErrorView::ManifestMissing { .. } => text::has_prefix(
                e.message(),
                "manifest not found for '"@,
            ),
            ErrorView::ManifestUnavailable { .. } => text::has_prefix(
                e.message(),
                "registry manifest unavailable for '"@,
            ),
            ErrorView::ManifestCloudOnly { .. } => text::has_prefix(
                e.message(),
                "cloud-only model — no local weights for '"@,
            ),
            ErrorView::ManifestPlatformRestricted { .. } => text::has_prefix(
                e.message(),
                "platform-restricted model for '"@,
            ),
            ErrorView::ManifestInvalid { .. } => text::has_prefix(
                e.message(),
                "invalid registry manifest for '"@,
            ),
            ErrorView::NoUsableManifest { .. } => text::has_prefix(
                e.message(),
                "no usable manifest found for model '"@,
            ),
            ErrorView::RamDetection(_) => text::has_prefix(
                e.message(),
                "failed to detect system RAM: "@,
            ),
            ErrorView::DiskDetection(_) => text::has_prefix(
                e.message(),
                "failed to detect disk space: "@,
            ),
            ErrorView::OllamaUnreachable { .. } => text::has_prefix(
                e.message(),
                "ollama is not reachable at "@,
            ),
            ErrorView::PullFailed { .. } => text::has_prefix(
                e.message(),
                "ollama pull failed for '"@,
            ),
            ErrorView::InvalidInput(_) => text::has_prefix(e.message(), "invalid input: "@),
            ErrorView::Other(_) => true,
        },
{
    let m = e.message();
    match e {
        ErrorView::Http(_) => {
            let head = "HTTP request failed: "@;
            assert(m.take(head.len() as int) =~= head);
        },
        ErrorView::Json(_) => {
            let head = "JSON parsing failed: "@;
            assert(m.take(head.len() as int) =~= head);
        },
        ErrorView::HtmlParse { .. } => {
            let head = "failed to parse HTML from "@;
            assert(m.take(head.len() as int) =~= head);
        },
        ErrorView::NoSearchResults { .. } => {
            let head = "no models found matching '"@;
            assert(m.take(head.len() as int) =~= head);
        },
        ErrorView::AmbiguousModel { .. } => {
            let head = "model search for '"@;
            assert(m.take(head.len() as int) =~= head);
        },
        ErrorView::NoTags { .. } => {
            let head = "no tags found for model '"@;
            assert(m.take(head.len() as int) =~= head);
        },
        ErrorView::ManifestMissing { .. } => {
            let head = "manifest not found for '"@;
            assert(m.take(head.len() as int) =~= head);
        },
        ErrorView::ManifestUnavailable { .. } => {
            let head = "registry manifest unavailable for '"@;
            assert(m.take(head.len() as int) =~= head);
        },
        ErrorView::ManifestCloudOnly { .. } => {
            let head = "cloud-only model — no local weights for '"@;
            assert(m.take(head.len() as int) =~= head);
        },
        ErrorView::ManifestPlatformRestricted { .. } => {
            let head = "platform-restricted model for '"@;
            assert(m.take(head.len() as int) =~= head);
        },
        ErrorView::ManifestInvalid { .. } => {
            let head = "invalid registry manifest for '"@;
            assert(m.take(head.len() as int) =~= head);
        },
        ErrorView::NoUsableManifest { .. } => {
            let head = "no usable manifest found for model '"@;
            assert(m.take(head.len() as int) =~= head);
        },
        ErrorView::RamDetection(_) => {
            let head = "failed to detect system RAM: "@;
            assert(m.take(head.len() as int) =~= head);
        },
        ErrorView::DiskDetection(_) => {
            let head = "failed to detect disk space: "@;
            assert(m.take(head.len() as int) =~= head);
        },
        ErrorView::OllamaUnreachable { .. } => {
            let head = "ollama is not reachable at "@;
            assert(m.take(head.len() as int) =~= head);
        },
        ErrorView::PullFailed { .. } => {
            let head = "ollama pull failed for '"@;
            assert(m.take(head.len() as int) =~= head);
        },
        ErrorView::InvalidInput(_) => {
            let head = "invalid input: "@;
            assert(m.take(head.len() as int) =~= head);
        },
        ErrorView::Other(_) => {},
    }
}

} // verus!
