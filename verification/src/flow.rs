//! The steps of resolving and pulling a model. Each step is a value that can only be
//! had from the one before, so that nothing is pulled that was not decided upon.

use vstd::prelude::*;

use crate::command::{self, NextStep, NextStepView};
use crate::error::{ErrorView, ResolverError};
use crate::resolver::{OutcomeView, ResolutionOutcome};
use crate::sanitize;
use crate::selection::{self, ModelSelectionOptions};
use crate::text;
use crate::types::SearchResult;

verus! {

/// A model is to be searched for.
pub struct Searching {
    name: String,
    selection: ModelSelectionOptions,
    yes: bool,
}

/// The user is to be asked which model is meant.
pub struct Asking {
    name: String,
    candidates: Vec<SearchResult>,
    quiet: bool,
    yes: bool,
}

/// The variant of a model is to be chosen.
pub struct Resolving {
    asked_for: String,
    name: String,
    quiet: bool,
    yes: bool,
}

/// The user is to be asked whether a variant that does not fit is wanted.
pub struct Confirming {
    outcome: ResolutionOutcome,
}

/// A variant is to be pulled.
pub struct Pulling {
    outcome: ResolutionOutcome,
    quiet: bool,
    /// The user wants the variant even if it does not fit.
    consent: bool,
    /// The result has been shown before.
    shown: bool,
}

/// What follows a search.
pub enum Choice {
    Ask(Asking),
    Resolve(Resolving),
}

/// What follows a resolution.
pub enum Verdict {
    Confirm(Confirming),
    Pull(Pulling),
}

impl Searching {
    pub closed spec fn name_text(self) -> Seq<char> {
        self.name@
    }

    pub closed spec fn options(self) -> ModelSelectionOptions {
        self.selection
    }

    pub closed spec fn consents(self) -> bool {
        self.yes
    }

    /// Starts with the model as the user wrote it, question mark included.
    pub fn begin(model: &str, selection: ModelSelectionOptions, yes: bool) -> (r: Result<
        Searching,
        ResolverError,
    >)
        ensures
            match command::target_of(model@) {
                Ok(name) => r matches Ok(s) && s.name_text() == name && s.options() == selection
                    && s.consents() == yes,
                Err(error) => r matches Err(e) && e@ == error,
            },
    {
        match command::resolve_target(model) {
            Ok(name) => Ok(Searching { name, selection, yes }),
            Err(e) => Err(e),
        }
    }

    /// What to search for.
    pub fn query(&self) -> (r: &str)
        ensures
            r@ == self.name_text(),
    {
        self.name.as_str()
    }

    /// Goes on with what the search returned.
    pub fn found(self, results: Vec<SearchResult>) -> (r: Result<Choice, ResolverError>)
        ensures
            match selection::decision(self.name_text(), results@, self.options()) {
                Some(Ok(name)) => r matches Ok(Choice::Resolve(next)) && next.name_text() == name
                    && next.asked_for_text() == self.name_text() && next.is_quiet()
                    == self.options().quiet && next.consents() == self.consents(),
                Some(Err(error)) => r matches Err(e) && e@ == error,
                None => r matches Ok(Choice::Ask(next)) && next.offer() == selection::offered(
                    results@,
                ) && next.name_text() == self.name_text() && next.is_quiet()
                    == self.options().quiet && next.consents() == self.consents(),
            },
    {
        match selection::decide_model_name(
            self.name.as_str(),
            results.as_slice(),
            self.selection,
        ) {
            Some(Ok(name)) => {
                Ok(
                    Choice::Resolve(
                        Resolving {
                            asked_for: self.name,
                            name,
                            quiet: self.selection.quiet,
                            yes: self.yes,
                        },
                    ),
                )
            },
            Some(Err(e)) => Err(e),
            None => {
                let mut candidates = results;
                candidates.truncate(8);
                assert(candidates@ =~= selection::offered(results@));
                Ok(
                    Choice::Ask(
                        Asking {
                            name: self.name,
                            candidates,
                            quiet: self.selection.quiet,
                            yes: self.yes,
                        },
                    ),
                )
            },
        }
    }
}

impl Asking {
    pub closed spec fn name_text(self) -> Seq<char> {
        self.name@
    }

    pub closed spec fn offer(self) -> Seq<SearchResult> {
        self.candidates@
    }

    pub closed spec fn is_quiet(self) -> bool {
        self.quiet
    }

    pub closed spec fn consents(self) -> bool {
        self.yes
    }

    /// What was searched for.
    pub fn query(&self) -> (r: &str)
        ensures
            r@ == self.name_text(),
    {
        self.name.as_str()
    }

    /// The models to choose from.
    pub fn candidates(&self) -> (r: &[SearchResult])
        ensures
            r@ == self.offer(),
    {
        self.candidates.as_slice()
    }

    /// Goes on with the user's answer.
    pub fn answered(self, answer: Result<Option<usize>, ResolverError>) -> (r: Result<
        Resolving,
        ResolverError,
    >)
        ensures
            match selection::answered(self.offer(), answer) {
                Ok(name) => r matches Ok(next) && next.name_text() == name && next.asked_for_text()
                    == self.name_text() && next.is_quiet() == self.is_quiet() && next.consents()
                    == self.consents(),
                Err(error) => r matches Err(e) && e@ == error,
            },
    {
        match selection::accept_answer(self.candidates.as_slice(), answer) {
            Ok(name) => {
                Ok(
                    Resolving {
                        asked_for: self.name,
                        name,
                        quiet: self.quiet,
                        yes: self.yes,
                    },
                )
            },
            Err(e) => Err(e),
        }
    }
}

impl Resolving {
    pub closed spec fn asked_for_text(self) -> Seq<char> {
        self.asked_for@
    }

    pub closed spec fn name_text(self) -> Seq<char> {
        self.name@
    }

    pub closed spec fn is_quiet(self) -> bool {
        self.quiet
    }

    pub closed spec fn consents(self) -> bool {
        self.yes
    }

    /// The model whose variant is to be chosen.
    pub fn model(&self) -> (r: &str)
        ensures
            r@ == self.name_text(),
    {
        self.name.as_str()
    }

    /// What is said where another model than the named one is used.
    pub fn note(&self) -> (r: Option<String>)
        ensures
            text::opt_text(r) == (if !self.is_quiet() && self.name_text()
                != self.asked_for_text() {
                Some("Using selected model: "@ + sanitize::line(self.name_text()))
            } else {
                None
            }),
    {
        command::selected_model_note(self.asked_for.as_str(), self.name.as_str(), self.quiet)
    }

    /// Goes on with the variant that was chosen.
    pub fn resolved(self, outcome: ResolutionOutcome) -> (r: Result<Verdict, ResolverError>)
        ensures
            match command::next_step(
                self.name_text(),
                outcome@,
                self.is_quiet(),
                self.consents(),
            ) {
                NextStepView::Refuse(error) => r matches Err(e) && e@ == error,
                NextStepView::Confirm(prompt) => r matches Ok(Verdict::Confirm(next))
                    && next.result() == outcome && next.question() == prompt,
                NextStepView::Pull { show } => r matches Ok(Verdict::Pull(next)) && next.result()
                    == outcome && next.is_quiet() == self.is_quiet() && next.is_shown() == !show,
            },
    {
        match command::after_resolution(self.name.as_str(), &outcome, self.quiet, self.yes) {
            NextStep::Refuse(e) => Err(e),
            NextStep::Confirm(prompt) => Ok(Verdict::Confirm(Confirming { outcome })),
            NextStep::Pull { show } => {
                Ok(
                    Verdict::Pull(
                        Pulling {
                            outcome,
                            quiet: self.quiet,
                            consent: self.yes,
                            shown: !show,
                        },
                    ),
                )
            },
        }
    }
}

impl Confirming {
    pub closed spec fn result(self) -> ResolutionOutcome {
        self.outcome
    }

    pub open spec fn question(self) -> Seq<char> {
        sanitize::line(self.result()@.variant.full_ref)
            + " does not fit the detected hardware. Pull anyway?"@
    }

    /// The result to show.
    pub fn outcome(&self) -> (r: &ResolutionOutcome)
        ensures
            *r == self.result(),
    {
        &self.outcome
    }

    /// The question to ask.
    pub fn prompt(&self) -> (r: String)
        ensures
            r@ == self.question(),
    {
        sanitize::terminal_line(self.outcome.variant.full_ref.as_str()).concat(
            " does not fit the detected hardware. Pull anyway?",
        )
    }

    /// Goes on with the user's answer.
    pub fn confirmed(self, proceed: bool) -> (r: Result<Pulling, ResolverError>)
        ensures
            proceed ==> (r matches Ok(next) && next.result() == self.result() && !next.is_quiet()
                && next.is_shown()),
            !proceed ==> (r matches Err(e) && e@ == ErrorView::Other("aborted by user"@)),
    {
        match command::after_confirmation(proceed) {
            Ok(()) => {
                Ok(Pulling { outcome: self.outcome, quiet: false, consent: true, shown: true })
            },
            Err(e) => Err(e),
        }
    }
}

impl Pulling {
    /// Nothing is pulled that does not fit, unless the user wants it; and in quiet
    /// mode not even then.
    #[verifier::type_invariant]
    spec fn is_justified(self) -> bool {
        self.outcome.fit.is_fit() || (self.consent && !self.quiet)
    }

    pub closed spec fn result(self) -> ResolutionOutcome {
        self.outcome
    }

    pub closed spec fn is_quiet(self) -> bool {
        self.quiet
    }

    pub closed spec fn is_shown(self) -> bool {
        self.shown
    }

    /// The result, where it is still to be shown.
    pub fn unshown(&self) -> (r: Option<&ResolutionOutcome>)
        ensures
            match r {
                Some(outcome) => !self.is_shown() && *outcome == self.result(),
                None => self.is_shown(),
            },
    {
        if self.shown {
            None
        } else {
            Some(&self.outcome)
        }
    }

    /// The variant to pull. In quiet mode it fits.
    pub fn model(&self) -> (r: &str)
        ensures
            r@ == self.result()@.variant.full_ref,
            self.is_quiet() ==> self.result().fit.is_fit(),
    {
        proof {
            use_type_invariant(self);
        }
        self.outcome.variant.full_ref.as_str()
    }

    pub fn quiet(&self) -> (r: bool)
        ensures
            r == self.is_quiet(),
    {
        self.quiet
    }
}

} // verus!
