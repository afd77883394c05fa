//! Why nothing that is shown holds a control character, whatever the pages, the
//! registry and Ollama say.

use vstd::prelude::*;

use crate::display::{self, BlockView, HardwareSizesView, ShownRowView, SpanView};
use crate::resolver::TraceView;
use crate::sanitize;
use crate::selection;
use crate::text;
use crate::types::{FitResult, HardwareProfile, SearchResult};

verus! {

/// Nothing in `s` is a control character.
pub open spec fn is_safe(s: Seq<char>) -> bool {
    forall|i: int| 0 <= i < s.len() ==> !sanitize::is_control(#[trigger] s[i])
}

pub open spec fn safe_spans(spans: Seq<SpanView>) -> bool {
    forall|i: int| 0 <= i < spans.len() ==> is_safe((#[trigger] spans[i]).text)
}

pub open spec fn is_safe_block(block: BlockView) -> bool {
    match block {
        BlockView::Line(spans) => safe_spans(spans),
        BlockView::Table { header, rows } => {
            &&& forall|i: int| 0 <= i < header.len() ==> is_safe(#[trigger] header[i])
            &&& forall|i: int| 0 <= i < rows.len() ==> safe_spans(#[trigger] rows[i])
        },
    }
}

pub broadcast proof fn lemma_safe_sum(a: Seq<char>, b: Seq<char>)
    requires
        is_safe(a),
        is_safe(b),
    ensures
        is_safe(#[trigger] (a + b)),
{
}

pub broadcast proof fn lemma_safe_line(s: Seq<char>)
    ensures
        is_safe(#[trigger] sanitize::line(s)),
{
}

pub broadcast proof fn lemma_safe_padded(s: Seq<char>, width: nat)
    requires
        is_safe(s),
    ensures
        is_safe(#[trigger] text::padded(s, width)),
{
}

pub broadcast proof fn lemma_safe_decimal(n: nat)
    ensures
        is_safe(#[trigger] text::decimal(n)),
    decreases n,
{
    if n >= 10 {
        lemma_safe_decimal(n / 10);
    }
}

pub broadcast proof fn lemma_safe_truncated(s: Seq<char>, max: nat)
    ensures
        is_safe(#[trigger] display::truncated(s, max)),
{
    reveal_strlit("…");
    lemma_safe_line(s);
}

pub broadcast group group_safe {
    lemma_safe_sum,
    lemma_safe_line,
    lemma_safe_padded,
    lemma_safe_decimal,
    lemma_safe_truncated,
}

proof fn lemma_blanks_are_safe()
    ensures
        is_safe(" "@),
        is_safe("  "@),
        is_safe("   "@),
        is_safe("-"@),
        is_safe("—"@),
        is_safe("%"@),
{
    reveal_strlit(" ");
    reveal_strlit("  ");
    reveal_strlit("   ");
    reveal_strlit("-");
    reveal_strlit("—");
    reveal_strlit("%");
}

proof fn lemma_verdicts_are_safe(fit: FitResult, gpu_pct: display::GpuPctView)
    requires
        is_safe(gpu_pct.rounded),
        is_safe(gpu_pct.whole),
    ensures
        is_safe(fit.summary_text(gpu_pct.rounded)),
        is_safe(display::compact_fit(fit, gpu_pct).text),
{
    broadcast use group_safe;

    reveal_strlit("fits GPU VRAM basis");
    reveal_strlit("fits with split (");
    reveal_strlit("% GPU)");
    reveal_strlit("fits RAM / CPU");
    reveal_strlit("does not fit");
    reveal_strlit("estimated disk shortfall");
    reveal_strlit("macOS-only");
    reveal_strlit("✓ fits GPU");
    reveal_strlit("~ ");
    reveal_strlit("% GPU");
    reveal_strlit("~ RAM / CPU");
    reveal_strlit("✗ does not fit");
    reveal_strlit("✗ disk short");
    assert(is_safe("fits with split ("@));
    assert(is_safe("% GPU)"@));
    assert(is_safe("~ "@));
    assert(is_safe("% GPU"@));
}

proof fn lemma_reasons_are_safe(row: crate::search::RowView)
    ensures
        is_safe(display::no_variant_cell(row).text),
{
    broadcast use group_safe;

    reveal_strlit("cloud-only");
    reveal_strlit("macOS-only");
}

/// No cell of a search with verdicts holds a control character.
pub proof fn law_search_rows_are_safe(shown: ShownRowView, weights: Seq<char>)
    requires
        is_safe(weights),
        is_safe(shown.gpu_pct.rounded),
        is_safe(shown.gpu_pct.whole),
    ensures
        safe_spans(display::wide_row(shown, weights)),
        is_safe_block(display::compact_row(shown, weights)),
{
    broadcast use group_safe;

    lemma_blanks_are_safe();
    lemma_reasons_are_safe(shown.row);
    if let Some(fit) = shown.row.fit {
        lemma_verdicts_are_safe(fit, shown.gpu_pct);
    }
}

/// No cell of a search without verdicts holds a control character.
pub proof fn law_library_rows_are_safe(result: SearchResult, size: Option<Seq<char>>)
    ensures
        safe_spans(display::library_row(result)),
        is_safe_block(display::library_line(result)),
        safe_spans(display::browse_row((result, size))),
        is_safe_block(display::browse_line((result, size))),
{
    broadcast use group_safe;

    lemma_blanks_are_safe();
}

/// No row of the table that explains a resolution holds a control character.
pub proof fn law_reasoning_is_safe(t: TraceView, state: Seq<char>)
    requires
        is_safe(state),
    ensures
        safe_spans(display::trace_row(t, state)),
{
    broadcast use group_safe;

    lemma_blanks_are_safe();
}

/// No line of the hardware summary holds a control character, whatever the
/// machine calls its GPUs and directories.
pub proof fn law_hardware_summary_is_safe(hw: HardwareProfile, sizes: HardwareSizesView, i: int)
    requires
        is_safe(sizes.vram_total),
        is_safe(sizes.ram_available),
        is_safe(sizes.ram_total),
        is_safe(sizes.disk_free),
        0 <= i < display::hardware_blocks(hw, sizes).len(),
    ensures
        is_safe_block(display::hardware_blocks(hw, sizes)[i]),
{
    broadcast use group_safe;

    lemma_blanks_are_safe();
    reveal_strlit("Hardware Profile");
    reveal_strlit("GPU:");
    reveal_strlit("none selected");
    reveal_strlit("NVIDIA GPUs:");
    reveal_strlit(" detected, ");
    reveal_strlit(" CUDA-visible, ");
    reveal_strlit(" used for fit");
    reveal_strlit("CUDA_VISIBLE:");
    reveal_strlit("VRAM basis:");
    reveal_strlit("RAM:");
    reveal_strlit(" / ");
    reveal_strlit("Disk free:");
    reveal_strlit("Models dir:");
    reveal_strlit("GPU policy:");
    reveal_strlit("best");
    reveal_strlit("visible-sum");
    reveal_strlit("all-sum");
    reveal_strlit("Fit basis:");
    assert(is_safe("Hardware Profile"@));
    assert(is_safe("GPU:"@));
    assert(is_safe("none selected"@));
    assert(is_safe("NVIDIA GPUs:"@));
    assert(is_safe(" detected, "@));
    assert(is_safe(" CUDA-visible, "@));
    assert(is_safe(" used for fit"@));
    assert(is_safe("CUDA_VISIBLE:"@));
    assert(is_safe("VRAM basis:"@));
    assert(is_safe("RAM:"@));
    assert(is_safe(" / "@));
    assert(is_safe("Disk free:"@));
    assert(is_safe("Models dir:"@));
    assert(is_safe("GPU policy:"@));
    assert(is_safe(hw.gpu_fit_policy.label_text()));
    assert(is_safe("Fit basis:"@));
    assert(is_safe(display::gpu_counts_text(hw)));
}

/// No candidate that is offered for choice brings a control character along.
pub proof fn law_choices_are_safe(result: SearchResult)
    ensures
        is_safe(selection::model_choice(result)),
{
    broadcast use group_safe;

    lemma_blanks_are_safe();
    reveal_strlit("(");
    reveal_strlit(")");
    reveal_strlit("- ");
    reveal_strlit(", ");
    assert(is_safe("("@) && is_safe(")"@) && is_safe("- "@) && is_safe(", "@));
    let metadata = selection::part_if(
        result.pulls@.len() > 0,
        sanitize::line(result.pulls@),
    ) + selection::part_if(result.tag_count@.len() > 0, sanitize::line(result.tag_count@));
    lemma_safe_join(metadata, ", "@);
    lemma_safe_join(
        seq![sanitize::line(result.name@)] + selection::part_if(
            metadata.len() > 0,
            "("@ + text::join(metadata, ", "@) + ")"@,
        ) + selection::part_if(
            result.description@.len() > 0,
            "- "@ + sanitize::line(result.description@),
        ),
        " "@,
    );
}

proof fn lemma_safe_join(parts: Seq<Seq<char>>, sep: Seq<char>)
    requires
        is_safe(sep),
        forall|i: int| 0 <= i < parts.len() ==> is_safe(#[trigger] parts[i]),
    ensures
        is_safe(text::join(parts, sep)),
    decreases parts.len(),
{
    broadcast use group_safe;

    if parts.len() > 1 {
        assert forall|i: int| 0 <= i < parts.drop_last().len() implies is_safe(
            #[trigger] parts.drop_last()[i],
        ) by {
            assert(parts.drop_last()[i] == parts[i]);
        }
        lemma_safe_join(parts.drop_last(), sep);
        assert(is_safe(parts[parts.len() - 1]));
    }
}

} // verus!
