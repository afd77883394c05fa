//! Which of the models that a search returned is meant.

use vstd::prelude::*;
use vstd::slice::slice_subrange;

use crate::error::{ErrorView, ResolverError};
use crate::sanitize;
use crate::text;
use crate::types::SearchResult;

verus! {

/// How a model is chosen where no name matches exactly.
#[derive(Debug, Clone, Copy, PartialEq, Eq, Structural)]
pub struct ModelSelectionOptions {
    pub quiet: bool,
    /// The candidate to take, counted from 1.
    pub select: Option<usize>,
    pub first: bool,
    pub fail_on_ambiguous: bool,
    /// Whether the user can be asked.
    pub interactive: bool,
}

/// What is wrong with a combination of options, if anything.
pub open spec fn option_fault(
    quiet: bool,
    select: Option<usize>,
    first: bool,
    fail_on_ambiguous: bool,
) -> Option<Seq<char>> {
    if select == Some(0usize) {
        Some("--select must be a 1-based candidate number greater than 0"@)
    } else if (select is Some && first) || (select is Some && fail_on_ambiguous) || (first
        && fail_on_ambiguous) {
        Some("use only one of --select, --first, or --fail-on-ambiguous"@)
    } else if quiet && (select is Some || first) {
        Some(
            "--quiet cannot be combined with --select or --first; quiet resolve fails on non-exact model searches"@,
        )
    } else {
        None
    }
}

impl ModelSelectionOptions {
    /// The options of a program that can ask the user if both its input and its
    /// error output are terminals.
    pub fn new(
        quiet: bool,
        select: Option<usize>,
        first: bool,
        fail_on_ambiguous: bool,
        stdin_is_terminal: bool,
        stderr_is_terminal: bool,
    ) -> (r: Result<ModelSelectionOptions, ResolverError>)
        ensures
            match option_fault(quiet, select, first, fail_on_ambiguous) {
                Some(fault) => r matches Err(e) && e@ == ErrorView::InvalidInput(fault),
                None => r == Ok::<_, ResolverError>(
                    (ModelSelectionOptions {
                        quiet,
                        select,
                        first,
                        fail_on_ambiguous,
                        interactive: stdin_is_terminal && stderr_is_terminal,
                    }),
                ),
            },
    {
        ModelSelectionOptions::with_interactive(
            quiet,
            select,
            first,
            fail_on_ambiguous,
            stdin_is_terminal && stderr_is_terminal,
        )
    }

    pub fn with_interactive(
        quiet: bool,
        select: Option<usize>,
        first: bool,
        fail_on_ambiguous: bool,
        interactive: bool,
    ) -> (r: Result<ModelSelectionOptions, ResolverError>)
        ensures
            match option_fault(quiet, select, first, fail_on_ambiguous) {
                Some(fault) => r matches Err(e) && e@ == ErrorView::InvalidInput(fault),
                None => r == Ok::<_, ResolverError>(
                    (ModelSelectionOptions {
                        quiet,
                        select,
                        first,
                        fail_on_ambiguous,
                        interactive,
                    }),
                ),
            },
    {
        if let Some(0) = select {
            return Err(
                ResolverError::InvalidInput(
                    "--select must be a 1-based candidate number greater than 0".to_string(),
                ),
            );
        }
        let selects = select.is_some();
        if (selects && first) || (selects && fail_on_ambiguous) || (first && fail_on_ambiguous) {
            return Err(
                ResolverError::InvalidInput(
                    "use only one of --select, --first, or --fail-on-ambiguous".to_string(),
                ),
            );
        }
        if quiet && (selects || first) {
            return Err(
                ResolverError::InvalidInput(
                    "--quiet cannot be combined with --select or --first; quiet resolve fails on non-exact model searches".to_string(),
                ),
            );
        }
        Ok(ModelSelectionOptions { quiet, select, first, fail_on_ambiguous, interactive })
    }
}

// ---- texts -----------------------------------------------------------------

/// A list of one part, or of none where there is nothing to show.
pub open spec fn part_if(shown: bool, part: Seq<char>) -> Seq<Seq<char>> {
    if shown {
        seq![part]
    } else {
        Seq::empty()
    }
}

/// A model with what is known of it, on one line.
pub open spec fn model_choice(result: SearchResult) -> Seq<char> {
    let metadata = part_if(result.pulls@.len() > 0, sanitize::line(result.pulls@)) + part_if(
        result.tag_count@.len() > 0,
        sanitize::line(result.tag_count@),
    );
    text::join(
        seq![sanitize::line(result.name@)] + part_if(
            metadata.len() > 0,
            "("@ + text::join(metadata, ", "@) + ")"@,
        ) + part_if(
            result.description@.len() > 0,
            "- "@ + sanitize::line(result.description@),
        ),
        " "@,
    )
}

pub fn format_model_choice(result: &SearchResult) -> (r: String)
    ensures
        r@ == model_choice(*result),
{
    let ghost all_pulls = part_if(result.pulls@.len() > 0, sanitize::line(result.pulls@));
    let ghost all_tags = part_if(result.tag_count@.len() > 0, sanitize::line(result.tag_count@));
    let mut metadata: Vec<String> = Vec::new();
    if result.pulls.as_str().unicode_len() > 0 {
        metadata.push(sanitize::terminal_line(result.pulls.as_str()));
    }
    assert(text::texts(metadata@) =~= all_pulls);
    if result.tag_count.as_str().unicode_len() > 0 {
        metadata.push(sanitize::terminal_line(result.tag_count.as_str()));
    }
    assert(text::texts(metadata@) =~= all_pulls + all_tags);
    let ghost all_metadata = part_if(
        metadata@.len() > 0,
        "("@ + text::join(text::texts(metadata@), ", "@) + ")"@,
    );
    let mut parts: Vec<String> = Vec::new();
    parts.push(sanitize::terminal_line(result.name.as_str()));
    if metadata.len() > 0 {
        parts.push("(".to_string().concat(text::join_texts(&metadata, ", ").as_str()).concat(")"));
    }
    assert(text::texts(parts@) =~= seq![sanitize::line(result.name@)] + all_metadata);
    let ghost so_far = text::texts(parts@);
    if result.description.as_str().unicode_len() > 0 {
        parts.push(
            "- ".to_string().concat(sanitize::terminal_line(result.description.as_str()).as_str()),
        );
    }
    assert(text::texts(parts@) =~= so_far + part_if(
        result.description@.len() > 0,
        "- "@ + sanitize::line(result.description@),
    ));
    text::join_texts(&parts, " ")
}

/// The models that are offered: no more than eight.
pub open spec fn offered(results: Seq<SearchResult>) -> Seq<SearchResult> {
    if results.len() > 8 {
        results.take(8)
    } else {
        results
    }
}

pub open spec fn candidate_names(results: Seq<SearchResult>) -> Seq<Seq<char>> {
    Seq::new(offered(results).len(), |i: int| sanitize::line(results[i].name@))
}

/// The names of the offered models.
pub fn candidate_list(results: &[SearchResult]) -> (r: String)
    ensures
        r@ == text::join(candidate_names(results@), ", "@),
{
    let n: usize = if results.len() > 8 {
        8
    } else {
        results.len()
    };
    let mut names: Vec<String> = Vec::new();
    for i in 0..n
        invariant
            n == offered(results@).len(),
            n <= results@.len(),
            text::texts(names@) =~= candidate_names(results@).take(i as int),
    {
        let name = sanitize::terminal_line(results[i].name.as_str());
        let ghost so_far = text::texts(names@);
        names.push(name);
        assert(text::texts(names@) =~= so_far.push(name@));
    }
    assert(text::texts(names@) =~= candidate_names(results@));
    text::join_texts(&names, ", ")
}

/// The lines that number the candidates from 1.
pub open spec fn numbered(candidates: Seq<SearchResult>) -> Seq<Seq<char>> {
    Seq::new(
        candidates.len(),
        |i: int| "  "@ + text::decimal((i + 1) as nat) + ". "@ + model_choice(candidates[i]),
    )
}

pub open spec fn ambiguity_text(query: Seq<char>, candidates: Seq<SearchResult>) -> Seq<char> {
    text::join(
        seq![
            "No exact model match for "@ + sanitize::line(query)
                + ". Re-run with an exact model name, use --quiet, pass --select <N>, pass --first, or pass --fail-on-ambiguous."@,
            "Top candidates:"@,
        ] + numbered(candidates),
        "\n"@,
    )
}

/// What a user who cannot be asked is told.
pub fn non_interactive_ambiguity_message(query: &str, candidates: &[SearchResult]) -> (r: String)
    ensures
        r@ == ambiguity_text(query@, candidates@),
{
    let mut lines: Vec<String> = Vec::new();
    lines.push(
        "No exact model match for ".to_string().concat(
            sanitize::terminal_line(query).as_str(),
        ).concat(
            ". Re-run with an exact model name, use --quiet, pass --select <N>, pass --first, or pass --fail-on-ambiguous.",
        ),
    );
    lines.push("Top candidates:".to_string());
    let ghost head = text::texts(lines@);
    assert(head =~= seq![
        "No exact model match for "@ + sanitize::line(query@)
            + ". Re-run with an exact model name, use --quiet, pass --select <N>, pass --first, or pass --fail-on-ambiguous."@,
        "Top candidates:"@,
    ]);
    for i in 0..candidates.len()
        invariant
            text::texts(lines@) =~= head + numbered(candidates@).take(i as int),
    {
        let line = "  ".to_string().concat(text::decimal_text(i as u64 + 1).as_str()).concat(
            ". ",
        ).concat(format_model_choice(&candidates[i]).as_str());
        let ghost so_far = text::texts(lines@);
        lines.push(line);
        assert(text::texts(lines@) =~= so_far.push(line@));
    }
    assert(text::texts(lines@) =~= head + numbered(candidates@));
    text::join_texts(&lines, "\n")
}

// ---- the choice ------------------------------------------------------------

pub open spec fn has_exact(query: Seq<char>, results: Seq<SearchResult>) -> bool {
    exists|i: int| 0 <= i < results.len() && (#[trigger] results[i]).name@ == query
}

/// What is decided without the user; `None` where the user is to be asked.
pub open spec fn decision(
    query: Seq<char>,
    results: Seq<SearchResult>,
    selection: ModelSelectionOptions,
) -> Option<Result<Seq<char>, ErrorView>> {
    if has_exact(query, results) {
        Some(Ok(query))
    } else if results.len() == 0 {
        Some(Err(ErrorView::NoSearchResults { query }))
    } else if selection.quiet || selection.fail_on_ambiguous {
        Some(
            Err(
                ErrorView::AmbiguousModel {
                    query,
                    candidates: text::join(candidate_names(results), ", "@),
                },
            ),
        )
    } else if selection.select is Some {
        let n = selection.select->Some_0;
        if 1 <= n <= offered(results).len() {
            Some(Ok(offered(results)[n - 1].name@))
        } else {
            Some(
                Err(
                    ErrorView::InvalidInput(
                        "--select "@ + text::decimal(n as nat)
                            + " is outside the candidate list; choose a number from 1 to "@
                            + text::decimal(offered(results).len()),
                    ),
                ),
            )
        }
    } else if selection.first {
        Some(Ok(results[0].name@))
    } else if !selection.interactive {
        Some(Err(ErrorView::Other(ambiguity_text(query, offered(results)))))
    } else {
        None
    }
}

/// What follows from the user's answer.
pub open spec fn answered(
    candidates: Seq<SearchResult>,
    answer: Result<Option<usize>, ResolverError>,
) -> Result<Seq<char>, ErrorView> {
    match answer {
        Ok(Some(i)) => if i < candidates.len() {
            Ok(candidates[i as int].name@)
        } else {
            Err(
                ErrorView::InvalidInput(
                    "selected model index "@ + text::decimal(i as nat)
                        + " is outside the candidate list"@,
                ),
            )
        },
        Ok(None) => Err(ErrorView::Other("aborted by user"@)),
        Err(e) => Err(e@),
    }
}

pub open spec fn name_view(r: Result<String, ResolverError>) -> Result<Seq<char>, ErrorView> {
    match r {
        Ok(name) => Ok(name@),
        Err(e) => Err(e@),
    }
}

/// Turns the user's answer to a list of candidates into a name.
pub fn accept_answer(
    candidates: &[SearchResult],
    answer: Result<Option<usize>, ResolverError>,
) -> (r: Result<String, ResolverError>)
    ensures
        name_view(r) == answered(candidates@, answer),
{
    match answer {
        Ok(Some(i)) => {
            if i < candidates.len() {
                Ok(candidates[i].name.clone())
            } else {
                Err(
                    ResolverError::InvalidInput(
                        "selected model index ".to_string().concat(
                            text::decimal_text(i as u64).as_str(),
                        ).concat(" is outside the candidate list"),
                    ),
                )
            }
        },
        Ok(None) => Err(ResolverError::Other("aborted by user".to_string())),
        Err(e) => Err(e),
    }
}

fn find_exact(query: &str, results: &[SearchResult]) -> (r: bool)
    ensures
        r == has_exact(query@, results@),
{
    for i in 0..results.len()
        invariant
            forall|j: int| 0 <= j < i ==> (#[trigger] results@[j]).name@ != query@,
    {
        if text::same_text(results[i].name.as_str(), query) {
            assert(results@[i as int].name@ == query@);
            return true;
        }
    }
    false
}

/// Decides which of the found models is meant, as far as that can be done without
/// the user; `None` where the user is to be asked.
pub fn decide_model_name(
    query: &str,
    results: &[SearchResult],
    selection: ModelSelectionOptions,
) -> (r: Option<Result<String, ResolverError>>)
    ensures
        match decision(query@, results@, selection) {
            Some(d) => r matches Some(x) && name_view(x) == d,
            None => r is None,
        },
{
    if find_exact(query, results) {
        return Some(Ok(query.to_string()));
    }
    if results.len() == 0 {
        return Some(Err(ResolverError::NoSearchResults { query: query.to_string() }));
    }
    if selection.quiet || selection.fail_on_ambiguous {
        return Some(
            Err(
                ResolverError::AmbiguousModel {
                    query: query.to_string(),
                    candidates: candidate_list(results),
                },
            ),
        );
    }
    let candidates = offer(results);
    if let Some(n) = selection.select {
        if 1 <= n && n <= candidates.len() {
            return Some(Ok(candidates[n - 1].name.clone()));
        }
        return Some(
            Err(
                ResolverError::InvalidInput(
                    "--select ".to_string().concat(text::decimal_text(n as u64).as_str()).concat(
                        " is outside the candidate list; choose a number from 1 to ",
                    ).concat(text::decimal_text(candidates.len() as u64).as_str()),
                ),
            ),
        );
    }
    if selection.first {
        return Some(Ok(candidates[0].name.clone()));
    }
    if !selection.interactive {
        return Some(
            Err(ResolverError::Other(non_interactive_ambiguity_message(query, candidates))),
        );
    }
    None
}

/// The models that are offered for choice.
pub fn offer(results: &[SearchResult]) -> (r: &[SearchResult])
    ensures
        r@ == offered(results@),
{
    if results.len() > 8 {
        slice_subrange(results, 0, 8)
    } else {
        results
    }
}

/// Chooses the model that is meant. `picker` asks the user, and is called only
/// where nothing else decides.
pub fn choose_model_name_with_picker<F>(
    query: &str,
    results: &[SearchResult],
    selection: ModelSelectionOptions,
    picker: F,
) -> (r: Result<String, ResolverError>) where
    F: FnOnce(&[SearchResult]) -> Result<Option<usize>, ResolverError>,

    requires
        decision(query@, results@, selection) is None ==> forall|c: &[SearchResult]|
            c@ == offered(results@) ==> #[trigger] picker.requires((c,)),
    ensures
        match decision(query@, results@, selection) {
            Some(d) => name_view(r) == d,
            None => exists|c: &[SearchResult], answer: Result<Option<usize>, ResolverError>|
                c@ == offered(results@) && #[trigger] picker.ensures((c,), answer) && name_view(r)
                    == answered(offered(results@), answer),
        },
{
    match decide_model_name(query, results, selection) {
        Some(decided) => decided,
        None => {
            let candidates = offer(results);
            let answer = picker(candidates);
            accept_answer(candidates, answer)
        },
    }
}

// ---- laws ------------------------------------------------------------------

/// An exact match is taken, whatever the options are.
pub proof fn law_exact_match_wins(
    query: Seq<char>,
    results: Seq<SearchResult>,
    selection: ModelSelectionOptions,
)
    requires
        has_exact(query, results),
    ensures
        decision(query, results, selection) == Some(Ok::<Seq<char>, ErrorView>(query)),
{
}

/// In quiet mode no name comes out but the one that was asked for, and the user
/// is never asked.
pub proof fn law_quiet_mode_never_guesses(
    query: Seq<char>,
    results: Seq<SearchResult>,
    selection: ModelSelectionOptions,
)
    requires
        selection.quiet,
    ensures
        decision(query, results, selection) matches Some(d) && (d matches Ok(name) ==> name == query
            && has_exact(query, results)),
{
}

/// The user is asked only where that is possible, something was found, nothing
/// matches exactly and no option decides.
pub proof fn law_user_is_asked_last(
    query: Seq<char>,
    results: Seq<SearchResult>,
    selection: ModelSelectionOptions,
)
    ensures
        decision(query, results, selection) is None <==> selection.interactive && !selection.quiet
            && !selection.fail_on_ambiguous && selection.select is None && !selection.first
            && results.len() > 0 && !has_exact(query, results),
{
}

/// A name that comes out is always that of a found model.
pub proof fn law_chosen_model_was_found(
    query: Seq<char>,
    results: Seq<SearchResult>,
    selection: ModelSelectionOptions,
    answer: Result<Option<usize>, ResolverError>,
) -> (i: int)
    requires
        (match decision(query, results, selection) {
            Some(d) => d,
            None => answered(offered(results), answer),
        }) is Ok,
    ensures
        0 <= i < results.len(),
        (match decision(query, results, selection) {
            Some(d) => d,
            None => answered(offered(results), answer),
        }) == Ok::<Seq<char>, ErrorView>(results[i].name@),
{
    if has_exact(query, results) {
        choose|i: int| 0 <= i < results.len() && (#[trigger] results[i]).name@ == query
    } else if selection.select is Some && decision(query, results, selection) is Some {
        selection.select->Some_0 - 1
    } else if decision(query, results, selection) is Some {
        0
    } else {
        answer->Ok_0->Some_0 as int
    }
}

/// Where nothing matches exactly and neither quiet mode nor `fail_on_ambiguous`
/// ends the choice, a number from 1 up to that of the last of at most eight results
/// takes the result of that number, and any other number is refused.
pub proof fn law_number_selects_from_the_top(
    query: Seq<char>,
    results: Seq<SearchResult>,
    selection: ModelSelectionOptions,
    n: usize,
)
    requires
        forall|i: int| 0 <= i < results.len() ==> (#[trigger] results[i]).name@ != query,
        results.len() > 0,
        !selection.quiet,
        !selection.fail_on_ambiguous,
        selection.select == Some(n),
    ensures
        1 <= n <= 8 && n <= results.len() ==> decision(query, results, selection) == Some(
            Ok::<Seq<char>, ErrorView>(results[n - 1].name@),
        ),
        n == 0 || n > 8 || n > results.len() ==> (decision(query, results, selection) matches Some(
            Err(ErrorView::InvalidInput(_)),
        )),
{
}

/// To take the first result and to take number 1 is the same.
pub proof fn law_first_is_number_one(
    query: Seq<char>,
    results: Seq<SearchResult>,
    selection: ModelSelectionOptions,
)
    requires
        results.len() > 0,
        selection.select is None,
        selection.first,
    ensures
        decision(query, results, selection) == decision(
            query,
            results,
            (ModelSelectionOptions { select: Some(1usize), first: false, ..selection }),
        ),
        !selection.quiet && !selection.fail_on_ambiguous && (forall|i: int|
            0 <= i < results.len() ==> (#[trigger] results[i]).name@ != query) ==> decision(
            query,
            results,
            selection,
        ) == Some(Ok::<Seq<char>, ErrorView>(results[0].name@)),
{
}

/// Nothing found is reported as such; quiet mode and `fail_on_ambiguous` report an
/// ambiguity; and a user who cannot be asked is told to choose.
pub proof fn law_what_is_reported_without_a_match(
    query: Seq<char>,
    results: Seq<SearchResult>,
    selection: ModelSelectionOptions,
)
    requires
        forall|i: int| 0 <= i < results.len() ==> (#[trigger] results[i]).name@ != query,
    ensures
        ({
            let d = decision(query, results, selection);
            &&& results.len() == 0 <==> d == Some(
                Err::<Seq<char>, _>(ErrorView::NoSearchResults { query }),
            )
            &&& results.len() > 0 && (selection.quiet || selection.fail_on_ambiguous) <==> d
                == Some(
                Err::<Seq<char>, _>(
                    ErrorView::AmbiguousModel {
                        query,
                        candidates: text::join(candidate_names(results), ", "@),
                    },
                ),
            )
            &&& results.len() > 0 && !selection.quiet && !selection.fail_on_ambiguous
                && selection.select is None && !selection.first && !selection.interactive <==> (d
                matches Some(Err(ErrorView::Other(_))))
        }),
{
}

/// The user picks from the first results, eight at the most: position `i` stands for
/// result `i`, a position beyond them is refused, and no pick ends the request.
pub proof fn law_pick_is_a_position(results: Seq<SearchResult>, i: usize, e: ResolverError)
    ensures
        offered(results).len() <= 8,
        results.len() <= 8 ==> offered(results).len() == results.len(),
        results.len() > 8 ==> offered(results).len() == 8,
        i < 8 && i < results.len() ==> offered(results)[i as int] == results[i as int] && answered(
            offered(results),
            Ok(Some(i)),
        ) == Ok::<Seq<char>, ErrorView>(results[i as int].name@),
        i >= 8 || i >= results.len() ==> (answered(offered(results), Ok(Some(i))) matches Err(
            ErrorView::InvalidInput(_),
        )),
        answered(offered(results), Ok(None)) == Err::<Seq<char>, _>(
            ErrorView::Other("aborted by user"@),
        ),
        answered(offered(results), Err(e)) == Err::<Seq<char>, _>(e@),
{
}

/// The names in an ambiguity report are those of the first results, in order and
/// made safe; a list with numbers starts at 1 and has a line for each model.
pub proof fn law_candidates_are_listed_in_order(results: Seq<SearchResult>, i: int)
    requires
        0 <= i < results.len(),
    ensures
        candidate_names(results).len() <= 8,
        i < 8 ==> i < candidate_names(results).len() && candidate_names(results)[i]
            == sanitize::line(results[i].name@),
        numbered(results).len() == results.len(),
        numbered(results)[i] == "  "@ + text::decimal((i + 1) as nat) + ". "@ + model_choice(
            results[i],
        ),
{
}

/// Options are refused exactly when the number is 0, when two of the three ways to
/// choose are given, or when quiet mode is to guess.
pub proof fn law_which_options_conflict(
    quiet: bool,
    select: Option<usize>,
    first: bool,
    fail_on_ambiguous: bool,
)
    ensures
        option_fault(quiet, select, first, fail_on_ambiguous) is None <==> {
            &&& select != Some(0usize)
            &&& !(select is Some && first)
            &&& !(select is Some && fail_on_ambiguous)
            &&& !(first && fail_on_ambiguous)
            &&& !(quiet && select is Some)
            &&& !(quiet && first)
        },
{
}

/// A result of exactly the name that was asked for is taken wherever it stands, and
/// whatever the options are.
pub proof fn law_exact_match_is_found_anywhere(
    query: Seq<char>,
    results: Seq<SearchResult>,
    selection: ModelSelectionOptions,
    i: int,
)
    requires
        0 <= i < results.len(),
        results[i].name@ == query,
    ensures
        decision(query, results, selection) == Some(Ok::<Seq<char>, ErrorView>(query)),
{
    assert(has_exact(query, results));
}

/// The user is asked exactly where that is possible, something was found, no result
/// has the name, and no option decides.
pub proof fn law_when_the_user_is_asked(
    query: Seq<char>,
    results: Seq<SearchResult>,
    selection: ModelSelectionOptions,
)
    ensures
        decision(query, results, selection) is None <==> {
            &&& selection.interactive && !selection.quiet && !selection.fail_on_ambiguous
            &&& selection.select is None && !selection.first
            &&& results.len() > 0
            &&& forall|i: int| 0 <= i < results.len() ==> (#[trigger] results[i]).name@ != query
        },
{
    if has_exact(query, results) {
        let i = choose|i: int| 0 <= i < results.len() && (#[trigger] results[i]).name@ == query;
        assert(results[i].name@ == query);
    }
}

/// A model to choose is shown by its name, then its pulls and tags in brackets, then
/// its description; what is not known is left out.
pub proof fn law_model_choice_in_full(result: SearchResult)
    ensures
        ({
            let pulls = sanitize::line(result.pulls@);
            let tags = sanitize::line(result.tag_count@);
            let inside = if result.pulls@.len() > 0 && result.tag_count@.len() > 0 {
                pulls + ", "@ + tags
            } else if result.pulls@.len() > 0 {
                pulls
            } else {
                tags
            };
            let brackets = if result.pulls@.len() > 0 || result.tag_count@.len() > 0 {
                " "@ + ("("@ + inside + ")"@)
            } else {
                Seq::<char>::empty()
            };
            let said = if result.description@.len() > 0 {
                " "@ + ("- "@ + sanitize::line(result.description@))
            } else {
                Seq::<char>::empty()
            };
            model_choice(result) == sanitize::line(result.name@) + brackets + said
        }),
{
    let pulls = sanitize::line(result.pulls@);
    let tags = sanitize::line(result.tag_count@);
    let has_pulls = result.pulls@.len() > 0;
    let has_tags = result.tag_count@.len() > 0;
    let metadata = part_if(has_pulls, pulls) + part_if(has_tags, tags);
    lemma_two_parts(has_pulls, pulls, has_tags, tags, ", "@);
    lemma_choice_parts(
        sanitize::line(result.name@),
        metadata.len() > 0,
        "("@ + text::join(metadata, ", "@) + ")"@,
        result.description@.len() > 0,
        "- "@ + sanitize::line(result.description@),
    );
}

proof fn lemma_two_parts(has_a: bool, a: Seq<char>, has_b: bool, b: Seq<char>, sep: Seq<char>)
    ensures
        ({
            let parts = part_if(has_a, a) + part_if(has_b, b);
            &&& parts.len() > 0 <==> has_a || has_b
            &&& has_a && has_b ==> text::join(parts, sep) == a + sep + b
            &&& has_a && !has_b ==> text::join(parts, sep) == a
            &&& !has_a && has_b ==> text::join(parts, sep) == b
        }),
{
    let parts = part_if(has_a, a) + part_if(has_b, b);
    text::law_join(seq![a], b, sep);
    text::law_join(seq![b], a, sep);
    if has_a && has_b {
        assert(parts =~= seq![a].push(b));
    } else if has_a {
        assert(parts =~= seq![a]);
    } else if has_b {
        assert(parts =~= seq![b]);
    }
}

proof fn lemma_choice_parts(
    name: Seq<char>,
    some: bool,
    brackets: Seq<char>,
    described: bool,
    said: Seq<char>,
)
    ensures
        text::join(
            seq![name] + part_if(some, brackets) + part_if(described, said),
            " "@,
        ) == name + (if some {
            " "@ + brackets
        } else {
            Seq::<char>::empty()
        }) + (if described {
            " "@ + said
        } else {
            Seq::<char>::empty()
        }),
{
    let parts = seq![name] + part_if(some, brackets) + part_if(described, said);
    let blank = " "@;
    text::law_join(seq![said], name, blank);
    text::law_join(seq![name], brackets, blank);
    text::law_join(seq![name], said, blank);
    text::law_join(seq![name].push(brackets), said, blank);
    if some && described {
        assert(parts =~= seq![name].push(brackets).push(said));
        assert(name + blank + brackets + blank + said =~= name + (blank + brackets) + (blank
            + said));
    } else if some {
        assert(parts =~= seq![name].push(brackets));
        assert(name + blank + brackets =~= name + (blank + brackets) + Seq::<char>::empty());
    } else if described {
        assert(parts =~= seq![name].push(said));
        assert(name + blank + said =~= name + Seq::<char>::empty() + (blank + said));
    } else {
        assert(parts =~= seq![name]);
        assert(name =~= name + Seq::<char>::empty() + Seq::<char>::empty());
    }
}

/// A user who cannot be asked is told first what was looked for, and then of every
/// candidate with its number.
pub proof fn law_ambiguity_tells_query_and_candidates(
    query: Seq<char>,
    candidates: Seq<SearchResult>,
    i: int,
)
    requires
        0 <= i < candidates.len(),
    ensures
        text::has_prefix(
            ambiguity_text(query, candidates),
            "No exact model match for "@ + sanitize::line(query),
        ),
        text::contains(
            ambiguity_text(query, candidates),
            "  "@ + text::decimal((i + 1) as nat) + ". "@ + model_choice(candidates[i]),
        ),
{
    let lines = seq![
        "No exact model match for "@ + sanitize::line(query)
            + ". Re-run with an exact model name, use --quiet, pass --select <N>, pass --first, or pass --fail-on-ambiguous."@,
        "Top candidates:"@,
    ] + numbered(candidates);
    let whole = ambiguity_text(query, candidates);
    let start = "No exact model match for "@ + sanitize::line(query);
    text::lemma_join_starts(lines, "\n"@);
    assert(whole.take(start.len() as int) =~= lines[0].take(start.len() as int)) by {
        assert(whole.take(lines[0].len() as int) == lines[0]);
        assert forall|k: int| 0 <= k < start.len() implies whole[k] == lines[0][k] by {
            assert(whole.take(lines[0].len() as int)[k] == whole[k]);
        }
    }
    assert(lines[0].take(start.len() as int) =~= start);
    assert(lines[i + 2] == numbered(candidates)[i]);
    text::lemma_join_holds_parts(lines, "\n"@, i + 2);
}

} // verus!
