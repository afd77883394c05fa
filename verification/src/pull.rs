//! The events of a pull: what is shown of each, and which of them ends it.

use vstd::prelude::*;
use vstd::slice::slice_subrange;

use crate::display;
use crate::error::{ErrorView, ResolverError};
use crate::sanitize;
use crate::text;

verus! {

/// An event of a pull, as Ollama sends it.
#[derive(Debug, Clone, PartialEq, Eq)]
pub struct PullEvent {
    pub status: Option<String>,
    pub digest: Option<String>,
    pub completed: Option<u64>,
    pub total: Option<u64>,
    pub error: Option<String>,
}

/// The first twelve digits of a digest, without the name of its algorithm.
pub open spec fn short_digest(digest: Seq<char>) -> Seq<char> {
    let digits = if text::has_prefix(digest, "sha256:"@) {
        digest.skip("sha256:"@.len() as int)
    } else {
        digest
    };
    sanitize::line(
        if digits.len() > 12 {
            digits.take(12)
        } else {
            digits
        },
    )
}

fn shorten_digest(digest: &str) -> (r: String)
    ensures
        r@ == short_digest(digest@),
{
    let chars = text::chars_of(digest);
    let prefix = text::chars_of("sha256:");
    let from: usize = if text::starts_with(chars.as_slice(), prefix.as_slice()) {
        prefix.len()
    } else {
        0
    };
    let digits = slice_subrange(chars.as_slice(), from, chars.len());
    assert(digits@ =~= if from == 0 {
        digest@
    } else {
        digest@.skip("sha256:"@.len() as int)
    });
    assert("sha256:"@.len() == 7) by {
        reveal_strlit("sha256:");
    }
    if digits.len() > 12 {
        let head = slice_subrange(digits, 0, 12);
        assert(head@ =~= digits@.take(12));
        sanitize::terminal_line(text::string_of(head).as_str())
    } else {
        sanitize::terminal_line(text::string_of(digits).as_str())
    }
}

/// How much of the whole is there, in whole percent.
pub open spec fn percent(completed: u64, total: u64) -> nat {
    if total == 0 {
        0
    } else if completed >= total {
        100
    } else {
        (completed * 100 / total as int) as nat
    }
}

fn whole_percent(completed: u64, total: u64) -> (r: u64)
    ensures
        r == percent(completed, total),
        r <= 100,
{
    if total == 0 {
        return 0;
    }
    if completed >= total {
        return 100;
    }
    assert(completed * 100 / total as int <= 100) by (nonlinear_arith)
        requires
            0 <= completed < total,
    ;
    (completed as u128 * 100 / total as u128) as u64
}

/// What is shown of an event. `done` and `whole` are its sizes.
pub open spec fn progress(event: PullEvent, done: Seq<char>, whole: Seq<char>) -> Seq<char> {
    let status = match event.status {
        Some(s) => sanitize::line(s@),
        None => "working"@,
    };
    let digest = match event.digest {
        Some(d) => " "@ + short_digest(d@),
        None => Seq::empty(),
    };
    let amount = match (event.completed, event.total) {
        (Some(completed), Some(total)) => " "@ + text::decimal(percent(completed, total)) + "% ("@
            + done + " / "@ + whole + ")"@,
        _ => Seq::empty(),
    };
    status + digest + amount
}

/// What is shown of an event, with its sizes as texts.
pub fn progress_text(event: &PullEvent, done: &str, whole: &str) -> (r: String)
    ensures
        r@ == progress(*event, done@, whole@),
{
    let mut out = match &event.status {
        Some(s) => sanitize::terminal_line(s.as_str()),
        None => "working".to_string(),
    };
    let ghost status = out@;
    if let Some(d) = &event.digest {
        out = out.concat(" ").concat(shorten_digest(d.as_str()).as_str());
    }
    let ghost digest = match &event.digest {
        Some(d) => " "@ + short_digest(d@),
        None => Seq::empty(),
    };
    assert(out@ =~= status + digest);
    let ghost head = out@;
    if let (Some(completed), Some(total)) = (event.completed, event.total) {
        let shown = text::decimal_text(whole_percent(completed, total));
        let amount = " ".to_string().concat(shown.as_str()).concat("% (").concat(done).concat(
            " / ",
        ).concat(whole).concat(")");
        out = out.concat(amount.as_str());
    } else {
        assert(head + Seq::<char>::empty() =~= head);
    }
    out
}

pub open spec fn size_shown(bytes: Option<u64>) -> Seq<char> {
    match bytes {
        Some(n) => display::byte_size_text(n),
        None => Seq::empty(),
    }
}

fn size_or_nothing(bytes: Option<u64>) -> (r: String)
    ensures
        r@ == size_shown(bytes),
{
    match bytes {
        Some(n) => display::byte_size(n),
        None => {
            let none = String::new();
            assert(none@ =~= Seq::<char>::empty());
            none
        },
    }
}

/// Takes in an event: what to show of it, or the failure that it reports.
pub fn pull_step(model: &str, event: &PullEvent) -> (r: Result<String, ResolverError>)
    ensures
        match event.error {
            Some(error) => r matches Err(e) && e@ == (ErrorView::PullFailed {
                model: model@,
                detail: sanitize::line(error@),
            }),
            None => r matches Ok(shown) && shown@ == progress(
                *event,
                size_shown(event.completed),
                size_shown(event.total),
            ),
        },
{
    if let Some(error) = &event.error {
        return Err(
            ResolverError::PullFailed {
                model: model.to_string(),
                detail: sanitize::terminal_line(error.as_str()),
            },
        );
    }
    let done = size_or_nothing(event.completed);
    let whole = size_or_nothing(event.total);
    Ok(progress_text(event, done.as_str(), whole.as_str()))
}

/// The share is the whole number of percent that the part amounts to: never more than
/// is there, and less than one percent short of it.
pub proof fn law_percent(completed: u64, total: u64)
    ensures
        total == 0 ==> percent(completed, total) == 0,
        total > 0 && completed >= total ==> percent(completed, total) == 100,
        completed < total ==> percent(completed, total) * total <= completed * 100 < (percent(
            completed,
            total,
        ) + 1) * total,
{
    if completed < total {
        let whole = completed * 100;
        vstd::arithmetic::div_mod::lemma_fundamental_div_mod(whole, total as int);
        let p = whole / total as int;
        assert(whole % total as int >= 0 && (whole % total as int) < total);
        assert(p >= 0) by (nonlinear_arith)
            requires
                whole >= 0,
                total > 0,
                p == whole / total as int,
        ;
        assert(total * p == p * total) by (nonlinear_arith);
        assert((p + 1) * total == p * total + total) by (nonlinear_arith);
    }
}

/// What is shown of an event: its status, then the start of its digest, then, where
/// both sizes are known, the share and the sizes.
pub proof fn law_progress_in_full(event: PullEvent, done: Seq<char>, whole: Seq<char>)
    ensures
        ({
            let shown = progress(event, done, whole);
            let status = match event.status {
                Some(s) => sanitize::line(s@),
                None => "working"@,
            };
            let n = status.len() as int;
            &&& n <= shown.len() && shown.take(n) == status
            &&& event.digest is None && (event.completed is None || event.total is None) ==> shown
                == status
            &&& event.digest matches Some(d) ==> {
                &&& event.completed is None || event.total is None ==> shown == status + " "@
                    + short_digest(d@)
                &&& event.completed is Some && event.total is Some ==> shown == status + " "@
                    + short_digest(d@) + " "@ + text::decimal(
                    percent(event.completed->Some_0, event.total->Some_0),
                ) + "% ("@ + done + " / "@ + whole + ")"@
            }
            &&& event.digest is None && event.completed is Some && event.total is Some ==> shown
                == status + " "@ + text::decimal(
                percent(event.completed->Some_0, event.total->Some_0),
            ) + "% ("@ + done + " / "@ + whole + ")"@
        }),
{
    let shown = progress(event, done, whole);
    let status = match event.status {
        Some(s) => sanitize::line(s@),
        None => "working"@,
    };
    assert(shown.take(status.len() as int) =~= status);
    if event.completed is None || event.total is None {
        match event.digest {
            Some(d) => {
                assert(shown =~= status + " "@ + short_digest(d@));
            },
            None => {
                assert(shown =~= status);
            },
        }
    } else {
        let share = text::decimal(percent(event.completed->Some_0, event.total->Some_0));
        match event.digest {
            Some(d) => {
                assert(shown =~= status + " "@ + short_digest(d@) + " "@ + share + "% ("@ + done
                    + " / "@ + whole + ")"@);
            },
            None => {
                assert(shown =~= status + " "@ + share + "% ("@ + done + " / "@ + whole + ")"@);
            },
        }
    }
}

/// Of a digest at most twelve characters are shown, from behind the name of the
/// algorithm on.
pub proof fn law_digests_are_short(digits: Seq<char>)
    ensures
        short_digest("sha256:"@ + digits).len() <= 12,
        digits.len() <= 12 ==> short_digest("sha256:"@ + digits) == sanitize::line(digits),
        digits.len() > 12 ==> short_digest("sha256:"@ + digits) == sanitize::line(
            digits.subrange(0, 12),
        ),
{
    let whole = "sha256:"@ + digits;
    let n = "sha256:"@.len() as int;
    assert(whole.take(n) =~= "sha256:"@);
    assert(whole.skip(n) =~= digits);
    if digits.len() > 12 {
        assert(digits.take(12) =~= digits.subrange(0, 12));
    }
}

} // verus!
