//! What the program shows: styled lines and tables.

use vstd::prelude::*;

use crate::resolver::{self, CandidateTrace, ResolutionDiagnostics, TraceView};
use crate::sanitize;
use crate::search::{self, RowView};
use crate::selection;
use crate::text;
use crate::types::{
    self, AnnotatedSearchResult, FilteredReason, FitResult, HardwareProfile, ModelVariant,
    SearchResult, VariantView,
};

verus! {

// ---- spans, lines and tables -----------------------------------------------

#[derive(Debug, Clone, Copy, PartialEq, Eq, Structural)]
pub enum Style {
    Plain,
    Bold,
    Dimmed,
    Green,
    Yellow,
    Red,
    Cyan,
    GreenBold,
    YellowBold,
    RedBold,
}

/// A piece of text in one style.
#[derive(Debug, Clone, PartialEq, Eq)]
pub struct Span {
    pub text: String,
    pub style: Style,
    /// The styled text is filled up with blanks to this many characters, those of
    /// the terminal codes included.
    pub width: usize,
}

pub struct SpanView {
    pub text: Seq<char>,
    pub style: Style,
    pub width: nat,
}

impl View for Span {
    type V = SpanView;

    open spec fn view(&self) -> SpanView {
        SpanView { text: self.text@, style: self.style, width: self.width as nat }
    }
}

#[derive(Debug, Clone, PartialEq, Eq)]
pub enum Block {
    Line(Vec<Span>),
    Table { header: Vec<String>, rows: Vec<Vec<Span>> },
}

pub enum BlockView {
    Line(Seq<SpanView>),
    Table { header: Seq<Seq<char>>, rows: Seq<Seq<SpanView>> },
}

pub open spec fn span_views(spans: Seq<Span>) -> Seq<SpanView> {
    Seq::new(spans.len(), |i: int| spans[i]@)
}

pub open spec fn table_rows(rows: Seq<Vec<Span>>) -> Seq<Seq<SpanView>> {
    Seq::new(rows.len(), |i: int| span_views(rows[i]@))
}

impl View for Block {
    type V = BlockView;

    open spec fn view(&self) -> BlockView {
        match self {
            Block::Line(spans) => BlockView::Line(span_views(spans@)),
            Block::Table { header, rows } => BlockView::Table {
                header: text::texts(header@),
                rows: table_rows(rows@),
            },
        }
    }
}

pub open spec fn block_views(blocks: Seq<Block>) -> Seq<BlockView> {
    Seq::new(blocks.len(), |i: int| blocks[i]@)
}

pub open spec fn styled(text: Seq<char>, style: Style) -> SpanView {
    SpanView { text, style, width: 0 }
}

pub open spec fn plain(text: Seq<char>) -> SpanView {
    styled(text, Style::Plain)
}

/// A line of one span.
pub open spec fn line_of(span: SpanView) -> BlockView {
    BlockView::Line(seq![span])
}

/// A line with a dimmed label in front.
pub open spec fn labelled(label: Seq<char>, value: Seq<SpanView>) -> BlockView {
    BlockView::Line(
        seq![plain("  "@), styled(text::padded(label, 14), Style::Dimmed), plain(" "@)] + value,
    )
}

/// A list with one block, or with none.
pub open spec fn block_if(shown: bool, block: BlockView) -> Seq<BlockView> {
    if shown {
        seq![block]
    } else {
        Seq::empty()
    }
}

fn span(text: String, style: Style) -> (r: Span)
    ensures
        r@ == styled(text@, style),
{
    Span { text, style, width: 0 }
}

fn plain_span(text: &str) -> (r: Span)
    ensures
        r@ == plain(text@),
{
    span(text.to_string(), Style::Plain)
}

fn spans1(a: Span) -> (r: Vec<Span>)
    ensures
        span_views(r@) == seq![a@],
{
    let mut out: Vec<Span> = Vec::new();
    out.push(a);
    assert(span_views(out@) =~= seq![a@]);
    out
}

fn spans2(a: Span, b: Span) -> (r: Vec<Span>)
    ensures
        span_views(r@) == seq![a@, b@],
{
    let mut out: Vec<Span> = Vec::new();
    out.push(a);
    out.push(b);
    assert(span_views(out@) =~= seq![a@, b@]);
    out
}

fn spans3(a: Span, b: Span, c: Span) -> (r: Vec<Span>)
    ensures
        span_views(r@) == seq![a@, b@, c@],
{
    let mut out: Vec<Span> = Vec::new();
    out.push(a);
    out.push(b);
    out.push(c);
    assert(span_views(out@) =~= seq![a@, b@, c@]);
    out
}

fn line1(a: Span) -> (r: Block)
    ensures
        r@ == line_of(a@),
{
    Block::Line(spans1(a))
}

fn blank_line() -> (r: Block)
    ensures
        r@ == BlockView::Line(Seq::empty()),
{
    let none: Vec<Span> = Vec::new();
    assert(span_views(none@) =~= Seq::<SpanView>::empty());
    Block::Line(none)
}

fn labelled_line(label: &str, value: Vec<Span>) -> (r: Block)
    ensures
        r@ == labelled(label@, span_views(value@)),
{
    let ghost tail = span_views(value@);
    let mut spans = spans3(
        plain_span("  "),
        span(text::pad(label, 14), Style::Dimmed),
        plain_span(" "),
    );
    let ghost head = span_views(spans@);
    let mut rest = value;
    let ghost value_spans = rest@;
    let ghost head_spans = spans@;
    spans.append(&mut rest);
    assert(span_views(spans@) =~= head + tail) by {
        assert(spans@ =~= head_spans + value_spans);
    }
    Block::Line(spans)
}

fn labelled_text(label: &str, value: &str) -> (r: Block)
    ensures
        r@ == labelled(label@, seq![plain(value@)]),
{
    labelled_line(label, spans1(plain_span(value)))
}

fn push_block(blocks: &mut Vec<Block>, block: Block)
    ensures
        block_views(final(blocks)@) == block_views(old(blocks)@).push(block@),
{
    let ghost before = block_views(blocks@);
    blocks.push(block);
    assert(block_views(blocks@) =~= before.push(block@));
}

fn push_blocks(blocks: &mut Vec<Block>, more: Vec<Block>)
    ensures
        block_views(final(blocks)@) == block_views(old(blocks)@) + block_views(more@),
{
    let ghost before = blocks@;
    let ghost added = more@;
    let mut rest = more;
    blocks.append(&mut rest);
    assert(blocks@ =~= before + added);
    assert(block_views(blocks@) =~= block_views(before) + block_views(added));
}

fn no_blocks() -> (r: Vec<Block>)
    ensures
        block_views(r@) == Seq::<BlockView>::empty(),
{
    let none: Vec<Block> = Vec::new();
    assert(block_views(none@) =~= Seq::<BlockView>::empty());
    none
}

// ---- sizes -----------------------------------------------------------------

/// The text of a `bytesize::ByteSize` in binary units.
pub uninterp spec fn byte_size_text(bytes: u64) -> Seq<char>;

/// `ByteSize::to_string` of the crate `bytesize`: the number in the largest binary
/// unit that it fills, with one decimal place. The text depends on the number
/// alone; below 1024 it is the number itself, a blank and `B`.
#[verifier::external_body]
pub(crate) fn byte_size(bytes: u64) -> (r: String)
    ensures
        r@ == byte_size_text(bytes),
        bytes < 1024 ==> r@ == text::decimal(bytes as nat) + " B"@,
{
    bytesize::ByteSize(bytes).to_string()
}

// ---- the hardware summary --------------------------------------------------

/// The sizes of a machine as they are shown.
#[derive(Debug, Clone, PartialEq, Eq)]
pub struct HardwareSizes {
    pub vram_total: String,
    pub ram_available: String,
    pub ram_total: String,
    pub disk_free: String,
}

pub struct HardwareSizesView {
    pub vram_total: Seq<char>,
    pub ram_available: Seq<char>,
    pub ram_total: Seq<char>,
    pub disk_free: Seq<char>,
}

impl View for HardwareSizes {
    type V = HardwareSizesView;

    open spec fn view(&self) -> HardwareSizesView {
        HardwareSizesView {
            vram_total: self.vram_total@,
            ram_available: self.ram_available@,
            ram_total: self.ram_total@,
            disk_free: self.disk_free@,
        }
    }
}

pub open spec fn hardware_sizes(hw: HardwareProfile) -> HardwareSizesView {
    HardwareSizesView {
        vram_total: byte_size_text(hw.vram_total),
        ram_available: byte_size_text(hw.ram_available),
        ram_total: byte_size_text(hw.ram_total),
        disk_free: byte_size_text(hw.disk_free),
    }
}

pub open spec fn gpu_name_text(hw: HardwareProfile) -> Seq<char> {
    match hw.gpu_name {
        Some(name) => sanitize::line(name@),
        None => "none selected"@,
    }
}

pub open spec fn gpu_counts_text(hw: HardwareProfile) -> Seq<char> {
    text::decimal(hw.gpus@.len()) + " detected, "@ + text::decimal(types::visible_count(hw.gpus@))
        + " CUDA-visible, "@ + text::decimal(hw.selected_gpu_indices@.len()) + " used for fit"@
}

/// The summary of a machine. Where memory is shared there is no line for the
/// GPU's memory: the fit goes by the available memory.
pub open spec fn hardware_blocks(hw: HardwareProfile, sizes: HardwareSizesView) -> Seq<BlockView> {
    seq![
        line_of(styled("Hardware Profile"@, Style::Bold)),
        labelled("GPU:"@, seq![plain(gpu_name_text(hw))]),
    ] + block_if(
        hw.gpus@.len() > 0,
        labelled("NVIDIA GPUs:"@, seq![plain(gpu_counts_text(hw))]),
    ) + block_if(
        hw.cuda_visible_devices is Some,
        labelled(
            "CUDA_VISIBLE:"@,
            seq![plain(sanitize::line(hw.cuda_visible_devices->Some_0@))],
        ),
    ) + block_if(
        hw.is_gpu_usable() && hw.unified_mem_total == 0,
        labelled("VRAM basis:"@, seq![styled(sizes.vram_total, Style::Green)]),
    ) + seq![
        labelled(
            "RAM:"@,
            seq![
                styled(sizes.ram_available, Style::Green),
                plain(" / "@ + sizes.ram_total),
            ],
        ),
        labelled("Disk free:"@, seq![plain(sizes.disk_free)]),
        labelled("Models dir:"@, seq![plain(sanitize::line(hw.models_dir@))]),
        labelled("GPU policy:"@, seq![plain(hw.gpu_fit_policy.label_text())]),
        labelled("Fit basis:"@, seq![plain(sanitize::line(hw.fit_basis_text()))]),
        BlockView::Line(Seq::empty()),
    ]
}

/// The summary of a machine, with its sizes as texts.
pub fn show_hardware(hw: &HardwareProfile, sizes: &HardwareSizes) -> (r: Vec<Block>)
    ensures
        block_views(r@) == hardware_blocks(*hw, sizes@),
{
    let mut out = no_blocks();
    push_block(&mut out, line1(span("Hardware Profile".to_string(), Style::Bold)));
    let gpu_name = match &hw.gpu_name {
        Some(name) => sanitize::terminal_line(name.as_str()),
        None => "none selected".to_string(),
    };
    push_block(&mut out, labelled_text("GPU:", gpu_name.as_str()));
    if hw.gpus.len() > 0 {
        let counts = text::decimal_text(hw.gpus.len() as u64).concat(" detected, ").concat(
            text::decimal_text(hw.visible_gpu_count() as u64).as_str(),
        ).concat(" CUDA-visible, ").concat(
            text::decimal_text(hw.selected_gpu_count() as u64).as_str(),
        ).concat(" used for fit");
        push_block(&mut out, labelled_text("NVIDIA GPUs:", counts.as_str()));
    }
    if let Some(value) = &hw.cuda_visible_devices {
        push_block(
            &mut out,
            labelled_text("CUDA_VISIBLE:", sanitize::terminal_line(value.as_str()).as_str()),
        );
    }
    if hw.has_gpu() && hw.unified_mem_total == 0 {
        push_block(
            &mut out,
            labelled_line(
                "VRAM basis:",
                spans1(span(sizes.vram_total.clone(), Style::Green)),
            ),
        );
    }
    push_block(
        &mut out,
        labelled_line(
            "RAM:",
            spans2(
                span(sizes.ram_available.clone(), Style::Green),
                plain_span(" / ".to_string().concat(sizes.ram_total.as_str()).as_str()),
            ),
        ),
    );
    push_block(&mut out, labelled_text("Disk free:", sizes.disk_free.as_str()));
    push_block(
        &mut out,
        labelled_text("Models dir:", sanitize::terminal_line(hw.models_dir.as_str()).as_str()),
    );
    push_block(&mut out, labelled_text("GPU policy:", hw.gpu_fit_policy.label().as_str()));
    push_block(
        &mut out,
        labelled_text("Fit basis:", sanitize::terminal_line(hw.gpu_fit_basis().as_str()).as_str()),
    );
    push_block(&mut out, blank_line());
    assert(block_views(out@) =~= hardware_blocks(*hw, sizes@));
    out
}

fn sizes_of(hw: &HardwareProfile) -> (r: HardwareSizes)
    ensures
        r@ == hardware_sizes(*hw),
{
    HardwareSizes {
        vram_total: byte_size(hw.vram_total),
        ram_available: byte_size(hw.ram_available),
        ram_total: byte_size(hw.ram_total),
        disk_free: byte_size(hw.disk_free),
    }
}

/// The summary of a machine.
pub fn print_hardware(hw: &HardwareProfile) -> (r: Vec<Block>)
    ensures
        block_views(r@) == hardware_blocks(*hw, hardware_sizes(*hw)),
{
    show_hardware(hw, &sizes_of(hw))
}

// ---- search results --------------------------------------------------------

/// `value` on one line and cut to `max` characters, the last of which then is an
/// ellipsis.
pub open spec fn truncated(value: Seq<char>, max: nat) -> Seq<char> {
    let shown = sanitize::line(value);
    if shown.len() <= max {
        shown
    } else if max == 0 {
        "…"@
    } else {
        shown.take(max - 1) + "…"@
    }
}

pub fn truncate(value: &str, max_chars: usize) -> (r: String)
    ensures
        r@ == truncated(value@, max_chars as nat),
{
    let sanitized = sanitize::terminal_line(value);
    let chars = text::chars_of(sanitized.as_str());
    if chars.len() <= max_chars {
        return sanitized;
    }
    let keep: usize = if max_chars == 0 {
        0
    } else {
        max_chars - 1
    };
    let head = vstd::slice::slice_subrange(chars.as_slice(), 0, keep);
    let out = text::string_of(head);
    proof {
        assert(head@ =~= chars@.take(keep as int));
        assert(keep == 0 ==> out@ + "…"@ =~= "…"@);
    }
    out.concat("…")
}

/// The share of a split model that is on the GPU, in percent: rounded, and cut
/// off to a whole number.
#[derive(Debug, Clone, PartialEq, Eq)]
pub struct GpuPct {
    pub rounded: String,
    pub whole: String,
}

pub struct GpuPctView {
    pub rounded: Seq<char>,
    pub whole: Seq<char>,
}

impl View for GpuPct {
    type V = GpuPctView;

    open spec fn view(&self) -> GpuPctView {
        GpuPctView { rounded: self.rounded@, whole: self.whole@ }
    }
}

/// A row to show. The share counts only for a model that is split.
#[derive(Debug, Clone)]
pub struct ShownRow {
    pub row: AnnotatedSearchResult,
    pub gpu_pct: GpuPct,
}

pub struct ShownRowView {
    pub row: RowView,
    pub gpu_pct: GpuPctView,
}

impl View for ShownRow {
    type V = ShownRowView;

    open spec fn view(&self) -> ShownRowView {
        ShownRowView { row: self.row@, gpu_pct: self.gpu_pct@ }
    }
}

pub open spec fn shown_views(rows: Seq<ShownRow>) -> Seq<ShownRowView> {
    Seq::new(rows.len(), |i: int| rows[i]@)
}

pub open spec fn fit_style(fit: FitResult) -> Style {
    match fit {
        FitResult::FitsVram => Style::Green,
        FitResult::FitsWithSplit { .. } => Style::Yellow,
        FitResult::FitsRamOnly => Style::Yellow,
        FitResult::DoesNotFit { .. } => Style::Red,
        FitResult::InsufficientDisk { .. } => Style::Red,
        FitResult::MacosOnly => Style::Cyan,
    }
}

fn fit_summary_colored(fit: &FitResult, gpu_pct: &GpuPct) -> (r: Span)
    ensures
        r@ == styled(fit.summary_text(gpu_pct@.rounded), fit_style(*fit)),
{
    let style = match fit {
        FitResult::FitsVram => Style::Green,
        FitResult::FitsWithSplit { .. } => Style::Yellow,
        FitResult::FitsRamOnly => Style::Yellow,
        FitResult::DoesNotFit { .. } => Style::Red,
        FitResult::InsufficientDisk { .. } => Style::Red,
        FitResult::MacosOnly => Style::Cyan,
    };
    span(fit.summary(gpu_pct.rounded.as_str()), style)
}

/// The verdict in a narrow column.
pub open spec fn compact_fit(fit: FitResult, gpu_pct: GpuPctView) -> SpanView {
    match fit {
        FitResult::FitsVram => styled("✓ fits GPU"@, Style::Green),
        FitResult::FitsWithSplit { .. } => styled(
            "~ "@ + gpu_pct.whole + "% GPU"@,
            Style::Green,
        ),
        FitResult::FitsRamOnly => styled("~ RAM / CPU"@, Style::Yellow),
        FitResult::DoesNotFit { .. } => styled("✗ does not fit"@, Style::Red),
        FitResult::InsufficientDisk { .. } => styled("✗ disk short"@, Style::Red),
        FitResult::MacosOnly => styled("macOS-only"@, Style::Cyan),
    }
}

fn fit_summary_compact(fit: &FitResult, gpu_pct: &GpuPct) -> (r: Span)
    ensures
        r@ == compact_fit(*fit, gpu_pct@),
{
    match fit {
        FitResult::FitsVram => span("✓ fits GPU".to_string(), Style::Green),
        FitResult::FitsWithSplit { .. } => {
            span(
                "~ ".to_string().concat(gpu_pct.whole.as_str()).concat("% GPU"),
                Style::Green,
            )
        },
        FitResult::FitsRamOnly => span("~ RAM / CPU".to_string(), Style::Yellow),
        FitResult::DoesNotFit { .. } => span("✗ does not fit".to_string(), Style::Red),
        FitResult::InsufficientDisk { .. } => span("✗ disk short".to_string(), Style::Red),
        FitResult::MacosOnly => span("macOS-only".to_string(), Style::Cyan),
    }
}

/// The cell of a model that the registry serves to macOS only.
pub fn platform_restricted_cell() -> (r: Span)
    ensures
        r@ == styled("macOS-only"@, Style::Cyan),
{
    span("macOS-only".to_string(), Style::Cyan)
}

/// Why a row has no variant.
pub open spec fn no_variant_cell(row: RowView) -> SpanView {
    match row.filtered {
        Some(FilteredReason::CloudOnly) => styled("cloud-only"@, Style::Dimmed),
        Some(FilteredReason::PlatformRestricted) => styled("macOS-only"@, Style::Cyan),
        None => styled(
            match row.error {
                Some(e) => sanitize::line(e),
                None => sanitize::line("unavailable"@),
            },
            Style::Dimmed,
        ),
    }
}

fn no_variant_span(row: &AnnotatedSearchResult) -> (r: Span)
    ensures
        r@ == no_variant_cell(row@),
{
    match row.filtered {
        Some(FilteredReason::CloudOnly) => span("cloud-only".to_string(), Style::Dimmed),
        Some(FilteredReason::PlatformRestricted) => platform_restricted_cell(),
        None => {
            let error = match &row.error {
                Some(e) => sanitize::terminal_line(e.as_str()),
                None => sanitize::terminal_line("unavailable"),
            };
            span(error, Style::Dimmed)
        },
    }
}

/// The size of the weights; a dash where it cannot be known.
pub open spec fn weights_text(fit: FitResult, weights: Seq<char>) -> Seq<char> {
    if fit is MacosOnly {
        "—"@
    } else {
        weights
    }
}

fn shown_weights(fit: &FitResult, weights: &str) -> (r: String)
    ensures
        r@ == weights_text(*fit, weights@),
{
    match fit {
        FitResult::MacosOnly => "—".to_string(),
        _ => weights.to_string(),
    }
}

/// The cells of a row in the wide table. `weights` is the size of the variant's
/// weights.
pub open spec fn wide_row(shown: ShownRowView, weights: Seq<char>) -> Seq<SpanView> {
    let row = shown.row;
    let head = match (row.variant, row.fit) {
        (Some(variant), Some(fit)) => seq![
            plain(sanitize::line(row.result.name@)),
            plain(sanitize::line(variant.full_ref)),
            styled(fit.summary_text(shown.gpu_pct.rounded), fit_style(fit)),
            plain(weights_text(fit, weights)),
        ],
        _ => seq![
            plain(sanitize::line(row.result.name@)),
            plain("-"@),
            no_variant_cell(row),
            plain("-"@),
        ],
    };
    head + seq![
        plain(sanitize::line(row.result.pulls@)),
        plain(sanitize::line(row.result.tag_count@)),
        plain(sanitize::line(row.result.updated@)),
        plain(truncated(row.result.description@, 72)),
    ]
}

fn line_span(value: &str) -> (r: Span)
    ensures
        r@ == plain(sanitize::line(value@)),
{
    span(sanitize::terminal_line(value), Style::Plain)
}

/// The cells of a row in the wide table.
pub fn wide_cells(shown: &ShownRow, weights: &str) -> (r: Vec<Span>)
    ensures
        span_views(r@) == wide_row(shown@, weights@),
{
    let row = &shown.row;
    let mut cells: Vec<Span> = Vec::new();
    cells.push(line_span(row.result.name.as_str()));
    match (&row.variant, &row.fit) {
        (Some(variant), Some(fit)) => {
            cells.push(line_span(variant.full_ref.as_str()));
            cells.push(fit_summary_colored(fit, &shown.gpu_pct));
            cells.push(span(shown_weights(fit, weights), Style::Plain));
        },
        _ => {
            cells.push(plain_span("-"));
            cells.push(no_variant_span(row));
            cells.push(plain_span("-"));
        },
    }
    cells.push(line_span(row.result.pulls.as_str()));
    cells.push(line_span(row.result.tag_count.as_str()));
    cells.push(line_span(row.result.updated.as_str()));
    cells.push(span(truncate(row.result.description.as_str(), 72), Style::Plain));
    assert(span_views(cells@) =~= wide_row(shown@, weights@));
    cells
}

/// A row of the compact layout.
pub open spec fn compact_row(shown: ShownRowView, weights: Seq<char>) -> BlockView {
    let row = shown.row;
    let name = "  "@ + text::padded(sanitize::line(row.result.name@), 32) + " "@;
    let tail = "   "@ + sanitize::line(row.result.pulls@) + "   "@ + text::padded(
        sanitize::line(row.result.tag_count@),
        5,
    ) + "   "@ + sanitize::line(row.result.updated@) + "   "@ + truncated(
        row.result.description@,
        48,
    );
    BlockView::Line(
        match (row.variant, row.fit) {
            (Some(variant), Some(fit)) => seq![
                plain(name + text::padded(sanitize::line(variant.full_ref), 16) + "   "@),
                (SpanView { width: 18, ..compact_fit(fit, shown.gpu_pct) }),
                plain("   "@ + weights_text(fit, weights) + tail),
            ],
            _ => seq![plain(name + "-"@ + "   "@), no_variant_cell(row), plain("   "@ + "-"@ + tail)],
        },
    )
}

/// A row of the compact layout.
pub fn compact_line(shown: &ShownRow, weights: &str) -> (r: Block)
    ensures
        r@ == compact_row(shown@, weights@),
{
    let row = &shown.row;
    let name = "  ".to_string().concat(
        text::pad(sanitize::terminal_line(row.result.name.as_str()).as_str(), 32).as_str(),
    ).concat(" ");
    let tail = "   ".to_string().concat(
        sanitize::terminal_line(row.result.pulls.as_str()).as_str(),
    ).concat("   ").concat(
        text::pad(sanitize::terminal_line(row.result.tag_count.as_str()).as_str(), 5).as_str(),
    ).concat("   ").concat(sanitize::terminal_line(row.result.updated.as_str()).as_str()).concat(
        "   ",
    ).concat(truncate(row.result.description.as_str(), 48).as_str());
    let spans = match (&row.variant, &row.fit) {
        (Some(variant), Some(fit)) => {
            let head = name.concat(
                text::pad(sanitize::terminal_line(variant.full_ref.as_str()).as_str(), 16).as_str(),
            ).concat("   ");
            let cell = fit_summary_compact(fit, &shown.gpu_pct);
            let verdict = Span { text: cell.text, style: cell.style, width: 18 };
            let last = "   ".to_string().concat(shown_weights(fit, weights).as_str()).concat(
                tail.as_str(),
            );
            spans3(span(head, Style::Plain), verdict, span(last, Style::Plain))
        },
        _ => {
            let last = "   ".to_string().concat("-").concat(tail.as_str());
            spans3(
                span(name.concat("-").concat("   "), Style::Plain),
                no_variant_span(row),
                span(last, Style::Plain),
            )
        },
    };
    assert(span_views(spans@) == compact_row(shown@, weights@)->Line_0);
    Block::Line(spans)
}

pub open spec fn hidden_parts(cloud: u64, platform: u64, fit: u64) -> Seq<Seq<char>> {
    selection::part_if(cloud > 0, text::decimal(cloud as nat) + " cloud-only"@)
        + selection::part_if(
        platform > 0,
        text::decimal(platform as nat) + " platform-restricted"@,
    ) + selection::part_if(fit > 0, text::decimal(fit as nat) + " does not fit"@)
}

/// How many rows are hidden, and why; nothing where none is.
pub open spec fn hidden_blocks(cloud: u64, platform: u64, fit: u64) -> Seq<BlockView> {
    block_if(
        cloud > 0 || platform > 0 || fit > 0,
        BlockView::Line(
            seq![
                plain("  "@),
                styled(text::join(hidden_parts(cloud, platform, fit), ", "@), Style::Dimmed),
                plain(" hidden. Use --all to show all models."@),
            ],
        ),
    )
}

/// Says how many rows are hidden, and why.
pub fn print_hidden_counts(cloud_count: u64, platform_count: u64, fit_count: u64) -> (r: Vec<Block>)
    ensures
        block_views(r@) == hidden_blocks(cloud_count, platform_count, fit_count),
{
    let mut out = no_blocks();
    if cloud_count > 0 || platform_count > 0 || fit_count > 0 {
        let mut parts: Vec<String> = Vec::new();
        if cloud_count > 0 {
            parts.push(text::decimal_text(cloud_count).concat(" cloud-only"));
        }
        if platform_count > 0 {
            parts.push(text::decimal_text(platform_count).concat(" platform-restricted"));
        }
        if fit_count > 0 {
            parts.push(text::decimal_text(fit_count).concat(" does not fit"));
        }
        assert(text::texts(parts@) =~= hidden_parts(cloud_count, platform_count, fit_count));
        push_block(
            &mut out,
            Block::Line(
                spans3(
                    plain_span("  "),
                    span(text::join_texts(&parts, ", "), Style::Dimmed),
                    plain_span(" hidden. Use --all to show all models."),
                ),
            ),
        );
    }
    assert(block_views(out@) =~= hidden_blocks(cloud_count, platform_count, fit_count));
    out
}

/// The size of a row's weights, as it is shown.
pub open spec fn row_weights(row: RowView) -> Seq<char> {
    match row.variant {
        Some(variant) => byte_size_text(variant.weights_bytes),
        None => Seq::empty(),
    }
}

fn weights_of(row: &AnnotatedSearchResult) -> (r: String)
    ensures
        r@ == row_weights(row@),
{
    match &row.variant {
        Some(variant) => byte_size(variant.weights_bytes),
        None => {
            let none = String::new();
            assert(none@ =~= Seq::<char>::empty());
            none
        },
    }
}

pub open spec fn names(list: Seq<&str>) -> Seq<Seq<char>> {
    Seq::new(list.len(), |i: int| list[i]@)
}

fn header_of(list: &[&str]) -> (r: Vec<String>)
    ensures
        text::texts(r@) == names(list@),
{
    let mut out: Vec<String> = Vec::new();
    for i in 0..list.len()
        invariant
            text::texts(out@) =~= names(list@).take(i as int),
    {
        let ghost so_far = text::texts(out@);
        out.push(list[i].to_string());
        assert(text::texts(out@) =~= so_far.push(list@[i as int]@));
    }
    assert(names(list@).take(list@.len() as int) =~= names(list@));
    out
}

fn push_row(rows: &mut Vec<Vec<Span>>, row: Vec<Span>)
    ensures
        table_rows(final(rows)@) == table_rows(old(rows)@).push(span_views(row@)),
{
    let ghost before = table_rows(rows@);
    rows.push(row);
    assert(table_rows(rows@) =~= before.push(span_views(row@)));
}

pub open spec fn wide_header() -> Seq<Seq<char>> {
    seq![
        "Model"@,
        "Best variant"@,
        "Fit"@,
        "Weights"@,
        "Pulls"@,
        "Tags"@,
        "Updated"@,
        "Description"@,
    ]
}

pub open spec fn wide_table(rows: Seq<ShownRowView>) -> BlockView {
    BlockView::Table {
        header: wide_header(),
        rows: Seq::new(rows.len(), |i: int| wide_row(rows[i], row_weights(rows[i].row))),
    }
}

/// A search with verdicts, as a table.
pub fn print_search_results(
    rows: &Vec<ShownRow>,
    hw: &HardwareProfile,
    cloud_count: u64,
    platform_count: u64,
    fit_count: u64,
) -> (r: Vec<Block>)
    ensures
        block_views(r@) == hardware_blocks(*hw, hardware_sizes(*hw)) + seq![
            wide_table(shown_views(rows@)),
        ] + hidden_blocks(cloud_count, platform_count, fit_count),
{
    let mut out = print_hardware(hw);
    let titles = [
        "Model",
        "Best variant",
        "Fit",
        "Weights",
        "Pulls",
        "Tags",
        "Updated",
        "Description",
    ];
    let header = header_of(&titles);
    assert(text::texts(header@) =~= wide_header());
    let mut table: Vec<Vec<Span>> = Vec::new();
    for i in 0..rows.len()
        invariant
            table_rows(table@) =~= Seq::new(
                i as nat,
                |j: int| wide_row(rows@[j]@, row_weights(rows@[j].row@)),
            ),
    {
        let weights = weights_of(&rows[i].row);
        push_row(&mut table, wide_cells(&rows[i], weights.as_str()));
    }
    let block = Block::Table { header, rows: table };
    assert(table_rows(table@) =~= Seq::new(
        rows@.len(),
        |j: int|
            wide_row(shown_views(rows@)[j], row_weights(shown_views(rows@)[j].row)),
    ));
    assert(block@ == wide_table(shown_views(rows@)));
    push_block(&mut out, block);
    push_blocks(&mut out, print_hidden_counts(cloud_count, platform_count, fit_count));
    assert(block_views(out@) =~= hardware_blocks(*hw, hardware_sizes(*hw)) + seq![
        wide_table(shown_views(rows@)),
    ] + hidden_blocks(cloud_count, platform_count, fit_count));
    out
}

pub open spec fn compact_header() -> BlockView {
    line_of(
        styled(
            "  Name                                     Variant            Fit                Weights   Pulls    Tags    Updated        Description"@,
            Style::Dimmed,
        ),
    )
}

pub open spec fn compact_lines(rows: Seq<ShownRowView>) -> Seq<BlockView> {
    Seq::new(rows.len(), |i: int| compact_row(rows[i], row_weights(rows[i].row)))
}

/// A search with verdicts, a line for each model.
pub fn print_search_results_compact(
    rows: &Vec<ShownRow>,
    hw: &HardwareProfile,
    cloud_count: u64,
    platform_count: u64,
    fit_count: u64,
) -> (r: Vec<Block>)
    ensures
        block_views(r@) == hardware_blocks(*hw, hardware_sizes(*hw)) + seq![compact_header()]
            + compact_lines(shown_views(rows@)) + hidden_blocks(
            cloud_count,
            platform_count,
            fit_count,
        ),
{
    let mut out = print_hardware(hw);
    push_block(
        &mut out,
        line1(
            span(
                "  Name                                     Variant            Fit                Weights   Pulls    Tags    Updated        Description".to_string(),
                Style::Dimmed,
            ),
        ),
    );
    let ghost head = block_views(out@);
    for i in 0..rows.len()
        invariant
            block_views(out@) =~= head + compact_lines(shown_views(rows@)).take(i as int),
    {
        let weights = weights_of(&rows[i].row);
        push_block(&mut out, compact_line(&rows[i], weights.as_str()));
    }
    assert(block_views(out@) =~= head + compact_lines(shown_views(rows@)));
    push_blocks(&mut out, print_hidden_counts(cloud_count, platform_count, fit_count));
    assert(block_views(out@) =~= hardware_blocks(*hw, hardware_sizes(*hw)) + seq![compact_header()]
        + compact_lines(shown_views(rows@)) + hidden_blocks(
        cloud_count,
        platform_count,
        fit_count,
    ));
    out
}

// ---- searches without verdicts ---------------------------------------------

pub open spec fn library_row(result: SearchResult) -> Seq<SpanView> {
    seq![
        plain(sanitize::line(result.name@)),
        plain(sanitize::line(result.pulls@)),
        plain(sanitize::line(result.tag_count@)),
        plain(sanitize::line(result.updated@)),
        plain(truncated(result.description@, 96)),
    ]
}

/// A search without verdicts, as a table.
pub fn print_search_results_unannotated(results: &Vec<SearchResult>) -> (r: Vec<Block>)
    ensures
        block_views(r@) == seq![
            line_of(styled("Search Results"@, Style::Bold)),
            BlockView::Line(
                seq![
                    plain("  "@),
                    styled(
                        "Library-only search. Re-run with --fit for hardware-aware tag and manifest annotation."@,
                        Style::Dimmed,
                    ),
                ],
            ),
            BlockView::Table {
                header: seq!["Model"@, "Pulls"@, "Tags"@, "Updated"@, "Description"@],
                rows: Seq::new(results@.len(), |i: int| library_row(results@[i])),
            },
        ],
{
    let titles = ["Model", "Pulls", "Tags", "Updated", "Description"];
    let header = header_of(&titles);
    assert(text::texts(header@) =~= seq![
        "Model"@,
        "Pulls"@,
        "Tags"@,
        "Updated"@,
        "Description"@,
    ]);
    let mut table: Vec<Vec<Span>> = Vec::new();
    for i in 0..results.len()
        invariant
            table_rows(table@) =~= Seq::new(i as nat, |j: int| library_row(results@[j])),
    {
        let result = &results[i];
        let mut cells: Vec<Span> = Vec::new();
        cells.push(line_span(result.name.as_str()));
        cells.push(line_span(result.pulls.as_str()));
        cells.push(line_span(result.tag_count.as_str()));
        cells.push(line_span(result.updated.as_str()));
        cells.push(span(truncate(result.description.as_str(), 96), Style::Plain));
        assert(span_views(cells@) =~= library_row(*result));
        push_row(&mut table, cells);
    }
    let mut out = no_blocks();
    push_block(&mut out, line1(span("Search Results".to_string(), Style::Bold)));
    push_block(
        &mut out,
        Block::Line(
            spans2(
                plain_span("  "),
                span(
                    "Library-only search. Re-run with --fit for hardware-aware tag and manifest annotation.".to_string(),
                    Style::Dimmed,
                ),
            ),
        ),
    );
    push_block(&mut out, Block::Table { header, rows: table });
    out
}

pub open spec fn library_line(result: SearchResult) -> BlockView {
    line_of(
        plain(
            "  "@ + text::padded(sanitize::line(result.name@), 32) + " "@ + text::padded(
                sanitize::line(result.pulls@),
                13,
            ) + " "@ + text::padded(sanitize::line(result.tag_count@), 6) + " "@ + text::padded(
                sanitize::line(result.updated@),
                15,
            ) + " "@ + truncated(result.description@, 48),
        ),
    )
}

pub open spec fn library_header() -> BlockView {
    line_of(
        styled(
            "  Name                                     Pulls           Tags    Updated             Description"@,
            Style::Dimmed,
        ),
    )
}

fn padded_line(value: &str, width: usize) -> (r: String)
    ensures
        r@ == text::padded(sanitize::line(value@), width as nat),
{
    text::pad(sanitize::terminal_line(value).as_str(), width)
}

/// A search without verdicts, a line for each model.
pub fn print_search_results_unannotated_compact(results: &Vec<SearchResult>) -> (r: Vec<Block>)
    ensures
        block_views(r@) == seq![library_header()] + Seq::new(
            results@.len(),
            |i: int| library_line(results@[i]),
        ),
{
    let mut out = no_blocks();
    push_block(
        &mut out,
        line1(
            span(
                "  Name                                     Pulls           Tags    Updated             Description".to_string(),
                Style::Dimmed,
            ),
        ),
    );
    for i in 0..results.len()
        invariant
            block_views(out@) =~= seq![library_header()] + Seq::new(
                i as nat,
                |j: int| library_line(results@[j]),
            ),
    {
        let result = &results[i];
        let line = "  ".to_string().concat(padded_line(result.name.as_str(), 32).as_str()).concat(
            " ",
        ).concat(padded_line(result.pulls.as_str(), 13).as_str()).concat(" ").concat(
            padded_line(result.tag_count.as_str(), 6).as_str(),
        ).concat(" ").concat(padded_line(result.updated.as_str(), 15).as_str()).concat(" ").concat(
            truncate(result.description.as_str(), 48).as_str(),
        );
        push_block(&mut out, line1(span(line, Style::Plain)));
    }
    out
}

/// A size range, or a dash where the tag page names no size.
pub open spec fn size_cell(size: Option<Seq<char>>) -> Seq<char> {
    match size {
        Some(s) => sanitize::line(s),
        None => "—"@,
    }
}

fn size_text(size: &Option<String>) -> (r: String)
    ensures
        r@ == size_cell(text::opt_text(*size)),
{
    match size {
        Some(s) => sanitize::terminal_line(s.as_str()),
        None => "—".to_string(),
    }
}

pub open spec fn browse_row(row: (SearchResult, Option<Seq<char>>)) -> Seq<SpanView> {
    seq![
        plain(sanitize::line(row.0.name@)),
        plain(size_cell(row.1)),
        plain(sanitize::line(row.0.pulls@)),
        plain(sanitize::line(row.0.tag_count@)),
        plain(sanitize::line(row.0.updated@)),
        plain(truncated(row.0.description@, 96)),
    ]
}

/// A quick browse, as a table.
pub fn print_library_results_with_size(rows: &Vec<(SearchResult, Option<String>)>) -> (r: Vec<
    Block,
>)
    ensures
        block_views(r@) == seq![
            line_of(styled("Search Results"@, Style::Bold)),
            BlockView::Table {
                header: seq!["Model"@, "Size"@, "Pulls"@, "Tags"@, "Updated"@, "Description"@],
                rows: Seq::new(
                    rows@.len(),
                    |i: int| browse_row(search::browse_views(rows@)[i]),
                ),
            },
        ],
{
    let titles = ["Model", "Size", "Pulls", "Tags", "Updated", "Description"];
    let header = header_of(&titles);
    assert(text::texts(header@) =~= seq![
        "Model"@,
        "Size"@,
        "Pulls"@,
        "Tags"@,
        "Updated"@,
        "Description"@,
    ]);
    let mut table: Vec<Vec<Span>> = Vec::new();
    for i in 0..rows.len()
        invariant
            table_rows(table@) =~= Seq::new(
                i as nat,
                |j: int| browse_row(search::browse_views(rows@)[j]),
            ),
    {
        let result = &rows[i].0;
        let mut cells: Vec<Span> = Vec::new();
        cells.push(line_span(result.name.as_str()));
        cells.push(span(size_text(&rows[i].1), Style::Plain));
        cells.push(line_span(result.pulls.as_str()));
        cells.push(line_span(result.tag_count.as_str()));
        cells.push(line_span(result.updated.as_str()));
        cells.push(span(truncate(result.description.as_str(), 96), Style::Plain));
        assert(span_views(cells@) =~= browse_row(search::browse_views(rows@)[i as int]));
        push_row(&mut table, cells);
    }
    let mut out = no_blocks();
    push_block(&mut out, line1(span("Search Results".to_string(), Style::Bold)));
    push_block(&mut out, Block::Table { header, rows: table });
    out
}

pub open spec fn browse_line(row: (SearchResult, Option<Seq<char>>)) -> BlockView {
    line_of(
        plain(
            "  "@ + text::padded(sanitize::line(row.0.name@), 32) + " "@ + text::padded(
                size_cell(row.1),
                18,
            ) + " "@ + text::padded(sanitize::line(row.0.pulls@), 13) + " "@ + text::padded(
                sanitize::line(row.0.tag_count@),
                6,
            ) + " "@ + text::padded(sanitize::line(row.0.updated@), 15) + " "@ + truncated(
                row.0.description@,
                48,
            ),
        ),
    )
}

pub open spec fn browse_header() -> BlockView {
    line_of(
        styled(
            "  Name                             Size               Pulls         Tags   Updated         Description"@,
            Style::Dimmed,
        ),
    )
}

/// A quick browse, a line for each model.
pub fn print_library_results_with_size_compact(rows: &Vec<(SearchResult, Option<String>)>) -> (r:
    Vec<Block>)
    ensures
        block_views(r@) == seq![browse_header()] + Seq::new(
            rows@.len(),
            |i: int| browse_line(search::browse_views(rows@)[i]),
        ),
{
    let mut out = no_blocks();
    push_block(
        &mut out,
        line1(
            span(
                "  Name                             Size               Pulls         Tags   Updated         Description".to_string(),
                Style::Dimmed,
            ),
        ),
    );
    for i in 0..rows.len()
        invariant
            block_views(out@) =~= seq![browse_header()] + Seq::new(
                i as nat,
                |j: int| browse_line(search::browse_views(rows@)[j]),
            ),
    {
        let result = &rows[i].0;
        let line = "  ".to_string().concat(padded_line(result.name.as_str(), 32).as_str()).concat(
            " ",
        ).concat(text::pad(size_text(&rows[i].1).as_str(), 18).as_str()).concat(" ").concat(
            padded_line(result.pulls.as_str(), 13).as_str(),
        ).concat(" ").concat(padded_line(result.tag_count.as_str(), 6).as_str()).concat(" ").concat(
            padded_line(result.updated.as_str(), 15).as_str(),
        ).concat(" ").concat(truncate(result.description.as_str(), 48).as_str());
        push_block(&mut out, line1(span(line, Style::Plain)));
    }
    out
}

// ---- notes -----------------------------------------------------------------

/// The row shows a variant that is for macOS only.
pub open spec fn is_macos_row(row: RowView) -> bool {
    row.filtered == Some(FilteredReason::PlatformRestricted) || row.fit == Some(
        FitResult::MacosOnly,
    )
}

/// A note where rows for macOS are shown.
pub fn print_macos_only_note(rows: &Vec<AnnotatedSearchResult>) -> (r: Vec<Block>)
    ensures
        ({
            let n = search::count(search::row_views(rows@), |row: RowView| is_macos_row(row));
            block_views(r@) == block_if(
                n > 0,
                BlockView::Line(
                    seq![
                        plain("  "@),
                        styled(
                            text::decimal(n)
                                + " macOS-only model(s): these require macOS to run; size/fit is gated by Ollama and not verified here."@,
                            Style::Dimmed,
                        ),
                    ],
                ),
            )
        }),
{
    let ghost views = search::row_views(rows@);
    let ghost which = |row: RowView| is_macos_row(row);
    let mut n: usize = 0;
    for i in 0..rows.len()
        invariant
            views == search::row_views(rows@),
            which == (|row: RowView| is_macos_row(row)),
            n == search::count(views.take(i as int), which),
            n <= i,
    {
        assert(views.take(i + 1).drop_last() =~= views.take(i as int));
        let restricted = match rows[i].filtered {
            Some(FilteredReason::PlatformRestricted) => true,
            _ => false,
        };
        let macos = match rows[i].fit {
            Some(FitResult::MacosOnly) => true,
            _ => false,
        };
        if restricted || macos {
            n = n + 1;
        }
    }
    assert(views.take(rows@.len() as int) =~= views);
    let mut out = no_blocks();
    if n > 0 {
        let note = text::decimal_text(n as u64).concat(
            " macOS-only model(s): these require macOS to run; size/fit is gated by Ollama and not verified here.",
        );
        push_block(&mut out, Block::Line(spans2(plain_span("  "), span(note, Style::Dimmed))));
    }
    out
}

/// A reminder of where the matches come from.
pub fn print_search_ranking_note() -> (r: Vec<Block>)
    ensures
        block_views(r@) == seq![
            BlockView::Line(
                seq![
                    plain("  "@),
                    styled(
                        "Matches and their order come from ollama.com; name matches are listed first."@,
                        Style::Dimmed,
                    ),
                ],
            ),
        ],
{
    let mut out = no_blocks();
    push_block(
        &mut out,
        Block::Line(
            spans2(
                plain_span("  "),
                span(
                    "Matches and their order come from ollama.com; name matches are listed first.".to_string(),
                    Style::Dimmed,
                ),
            ),
        ),
    );
    out
}

// ---- a resolved model ------------------------------------------------------

/// The verdict on a resolved model. `need` and `have` are the sizes of a
/// shortfall.
pub open spec fn indicator(
    fit: FitResult,
    gpu_pct: GpuPctView,
    need: Seq<char>,
    have: Seq<char>,
) -> Seq<SpanView> {
    match fit {
        FitResult::FitsVram => seq![
            plain("  "@),
            styled("✓"@, Style::GreenBold),
            plain(" Fits the selected GPU VRAM basis"@),
        ],
        FitResult::FitsWithSplit { .. } => seq![
            plain("  "@),
            styled("~"@, Style::YellowBold),
            plain(" Fits with VRAM/RAM split ("@ + gpu_pct.rounded + "% GPU)"@),
        ],
        FitResult::FitsRamOnly => seq![
            plain("  "@),
            styled("~"@, Style::YellowBold),
            plain(" Fits in RAM for CPU inference"@),
        ],
        FitResult::DoesNotFit { .. } => seq![
            plain("  "@),
            styled("✗"@, Style::RedBold),
            plain(" Does not fit: need "@ + need + ", have "@ + have),
        ],
        FitResult::InsufficientDisk { .. } => seq![
            plain("  "@),
            styled("✗"@, Style::RedBold),
            plain(
                " Estimated disk shortfall: approximately need "@ + need + ", have "@ + have,
            ),
        ],
        FitResult::MacosOnly => seq![
            plain("  "@),
            styled("~"@, Style::YellowBold),
            plain(" Requires macOS; size and fit are not known here"@),
        ],
    }
}

/// The verdict on a resolved model, with the sizes of a shortfall as texts.
pub fn show_fit_indicator(fit: &FitResult, gpu_pct: &GpuPct, need: &str, have: &str) -> (r: Vec<
    Block,
>)
    ensures
        block_views(r@) == seq![
            BlockView::Line(indicator(*fit, gpu_pct@, need@, have@)),
            BlockView::Line(Seq::empty()),
        ],
{
    let (mark, style, words) = match fit {
        FitResult::FitsVram => {
            ("✓", Style::GreenBold, " Fits the selected GPU VRAM basis".to_string())
        },
        FitResult::FitsWithSplit { .. } => {
            (
                "~",
                Style::YellowBold,
                " Fits with VRAM/RAM split (".to_string().concat(
                    gpu_pct.rounded.as_str(),
                ).concat("% GPU)"),
            )
        },
        FitResult::FitsRamOnly => {
            ("~", Style::YellowBold, " Fits in RAM for CPU inference".to_string())
        },
        FitResult::DoesNotFit { .. } => {
            (
                "✗",
                Style::RedBold,
                " Does not fit: need ".to_string().concat(need).concat(", have ").concat(have),
            )
        },
        FitResult::InsufficientDisk { .. } => {
            (
                "✗",
                Style::RedBold,
                " Estimated disk shortfall: approximately need ".to_string().concat(need).concat(
                    ", have ",
                ).concat(have),
            )
        },
        FitResult::MacosOnly => {
            (
                "~",
                Style::YellowBold,
                " Requires macOS; size and fit are not known here".to_string(),
            )
        },
    };
    let mut out = no_blocks();
    push_block(
        &mut out,
        Block::Line(
            spans3(
                plain_span("  "),
                span(mark.to_string(), style),
                span(words, Style::Plain),
            ),
        ),
    );
    push_block(&mut out, blank_line());
    out
}

/// What is needed and what there is, where that is not enough.
pub open spec fn shortfall(fit: FitResult) -> (Seq<char>, Seq<char>) {
    match fit {
        FitResult::DoesNotFit { need, have } => (byte_size_text(need), byte_size_text(have)),
        FitResult::InsufficientDisk { need, have } => (byte_size_text(need), byte_size_text(have)),
        _ => (Seq::empty(), Seq::empty()),
    }
}

fn shortfall_texts(fit: &FitResult) -> (r: (String, String))
    ensures
        (r.0@, r.1@) == shortfall(*fit),
{
    match fit {
        FitResult::DoesNotFit { need, have } => (byte_size(*need), byte_size(*have)),
        FitResult::InsufficientDisk { need, have } => (byte_size(*need), byte_size(*have)),
        _ => {
            let none = String::new();
            assert(none@ =~= Seq::<char>::empty());
            (none, String::new())
        },
    }
}

/// The verdict on a resolved model.
pub fn print_fit_indicator(fit: &FitResult, gpu_pct: &GpuPct) -> (r: Vec<Block>)
    ensures
        block_views(r@) == seq![
            BlockView::Line(indicator(*fit, gpu_pct@, shortfall(*fit).0, shortfall(*fit).1)),
            BlockView::Line(Seq::empty()),
        ],
{
    let (need, have) = shortfall_texts(fit);
    show_fit_indicator(fit, gpu_pct, need.as_str(), have.as_str())
}

/// The sizes of a variant as they are shown.
#[derive(Debug, Clone, PartialEq, Eq)]
pub struct VariantSizes {
    pub weights: String,
    pub total: String,
    pub runtime: String,
}

pub struct VariantSizesView {
    pub weights: Seq<char>,
    pub total: Seq<char>,
    pub runtime: Seq<char>,
}

impl View for VariantSizes {
    type V = VariantSizesView;

    open spec fn view(&self) -> VariantSizesView {
        VariantSizesView { weights: self.weights@, total: self.total@, runtime: self.runtime@ }
    }
}

pub open spec fn variant_sizes(variant: VariantView) -> VariantSizesView {
    VariantSizesView {
        weights: byte_size_text(variant.weights_bytes),
        total: byte_size_text(variant.total_bytes),
        runtime: byte_size_text(variant.estimated_runtime_bytes),
    }
}

pub open spec fn note_line(note: Seq<char>) -> BlockView {
    BlockView::Line(seq![plain("  "@), styled(note, Style::Dimmed)])
}

/// What is known of a variant. `params` is its parameter count in billions, with
/// one decimal place; it is shown where the tag names one.
pub open spec fn variant_blocks(
    variant: VariantView,
    sizes: VariantSizesView,
    params: Seq<char>,
) -> Seq<BlockView> {
    seq![
        line_of(styled("Resolved Model"@, Style::Bold)),
        labelled("Model:"@, seq![styled(sanitize::line(variant.full_ref), Style::Bold)]),
        labelled("Weights:"@, seq![plain(sizes.weights)]),
        labelled("Approx. pull:"@, seq![plain(sizes.total)]),
        labelled("Est. runtime:"@, seq![plain(sizes.runtime)]),
        labelled(
            "Context:"@,
            seq![plain(text::decimal(variant.context_tokens as nat) + " tokens"@)],
        ),
        labelled(
            "Margin:"@,
            seq![plain(text::decimal(variant.runtime_margin_pct as nat) + "%"@)],
        ),
    ] + block_if(
        variant.param_billions is Some,
        labelled(
            "Parameters:"@,
            seq![plain(params + "B "@), styled("(tag hint)"@, Style::Dimmed)],
        ),
    ) + block_if(
        variant.quantization is Some,
        labelled(
            "Quantization:"@,
            seq![
                plain(sanitize::line(variant.quantization->Some_0) + " "@),
                styled("(tag hint)"@, Style::Dimmed),
            ],
        ),
    ) + seq![
        BlockView::Line(Seq::empty()),
        note_line(
            "Fit is an estimate based on registry weights, context tokens, GPU policy, and runtime margin."@,
        ),
        note_line(
            "Actual memory can change with context length, architecture, quantization, and offload behavior."@,
        ),
        note_line(
            "Approx. pull size may overstate network/disk use when layers already exist locally."@,
        ),
        BlockView::Line(Seq::empty()),
    ]
}

fn note(words: &str) -> (r: Block)
    ensures
        r@ == note_line(words@),
{
    Block::Line(spans2(plain_span("  "), span(words.to_string(), Style::Dimmed)))
}

/// What is known of a variant, with its sizes as texts.
pub fn show_variant(variant: &ModelVariant, sizes: &VariantSizes, params: &str) -> (r: Vec<Block>)
    ensures
        block_views(r@) == variant_blocks(variant@, sizes@, params@),
{
    let mut out = no_blocks();
    push_block(&mut out, line1(span("Resolved Model".to_string(), Style::Bold)));
    push_block(
        &mut out,
        labelled_line(
            "Model:",
            spans1(span(sanitize::terminal_line(variant.full_ref.as_str()), Style::Bold)),
        ),
    );
    push_block(&mut out, labelled_text("Weights:", sizes.weights.as_str()));
    push_block(&mut out, labelled_text("Approx. pull:", sizes.total.as_str()));
    push_block(&mut out, labelled_text("Est. runtime:", sizes.runtime.as_str()));
    push_block(
        &mut out,
        labelled_text(
            "Context:",
            text::decimal_text(variant.context_tokens as u64).concat(" tokens").as_str(),
        ),
    );
    push_block(
        &mut out,
        labelled_text(
            "Margin:",
            text::decimal_text(variant.runtime_margin_pct as u64).concat("%").as_str(),
        ),
    );
    if variant.param_billions.is_some() {
        push_block(
            &mut out,
            labelled_line(
                "Parameters:",
                spans2(
                    plain_span(params.to_string().concat("B ").as_str()),
                    span("(tag hint)".to_string(), Style::Dimmed),
                ),
            ),
        );
    }
    if let Some(quant) = &variant.quantization {
        push_block(
            &mut out,
            labelled_line(
                "Quantization:",
                spans2(
                    plain_span(sanitize::terminal_line(quant.as_str()).concat(" ").as_str()),
                    span("(tag hint)".to_string(), Style::Dimmed),
                ),
            ),
        );
    }
    push_block(&mut out, blank_line());
    push_block(
        &mut out,
        note(
            "Fit is an estimate based on registry weights, context tokens, GPU policy, and runtime margin.",
        ),
    );
    push_block(
        &mut out,
        note(
            "Actual memory can change with context length, architecture, quantization, and offload behavior.",
        ),
    );
    push_block(
        &mut out,
        note("Approx. pull size may overstate network/disk use when layers already exist locally."),
    );
    push_block(&mut out, blank_line());
    assert(block_views(out@) =~= variant_blocks(variant@, sizes@, params@));
    out
}

/// A resolved model, with the machine and the verdict.
pub fn print_resolve_result(
    variant: &ModelVariant,
    fit: &FitResult,
    hw: &HardwareProfile,
    gpu_pct: &GpuPct,
    params: &str,
) -> (r: Vec<Block>)
    ensures
        block_views(r@) == hardware_blocks(*hw, hardware_sizes(*hw)) + variant_blocks(
            variant@,
            variant_sizes(variant@),
            params@,
        ) + seq![
            BlockView::Line(indicator(*fit, gpu_pct@, shortfall(*fit).0, shortfall(*fit).1)),
            BlockView::Line(Seq::empty()),
        ],
{
    let sizes = VariantSizes {
        weights: byte_size(variant.weights_bytes),
        total: byte_size(variant.total_bytes),
        runtime: byte_size(variant.estimated_runtime_bytes),
    };
    let mut out = print_hardware(hw);
    push_blocks(&mut out, show_variant(variant, &sizes, params));
    push_blocks(&mut out, print_fit_indicator(fit, gpu_pct));
    out
}

// ---- local models ----------------------------------------------------------

/// The models that are already there, with their sizes as texts.
pub fn show_local_models(models: &Vec<(String, String)>) -> (r: Vec<Block>)
    ensures
        block_views(r@) == (if models@.len() == 0 {
            seq![line_of(styled("No local models found."@, Style::Dimmed))]
        } else {
            seq![
                line_of(styled("Local Models"@, Style::Bold)),
                BlockView::Table {
                    header: seq!["Model"@, "Size"@],
                    rows: Seq::new(
                        models@.len(),
                        |i: int|
                            seq![
                                plain(sanitize::line(models@[i].0@)),
                                plain(models@[i].1@),
                            ],
                    ),
                },
            ]
        }),
{
    let mut out = no_blocks();
    if models.len() == 0 {
        push_block(&mut out, line1(span("No local models found.".to_string(), Style::Dimmed)));
        return out;
    }
    let titles = ["Model", "Size"];
    let header = header_of(&titles);
    assert(text::texts(header@) =~= seq!["Model"@, "Size"@]);
    let mut table: Vec<Vec<Span>> = Vec::new();
    for i in 0..models.len()
        invariant
            table_rows(table@) =~= Seq::new(
                i as nat,
                |j: int| seq![plain(sanitize::line(models@[j].0@)), plain(models@[j].1@)],
            ),
    {
        push_row(
            &mut table,
            spans2(line_span(models[i].0.as_str()), plain_span(models[i].1.as_str())),
        );
    }
    push_block(&mut out, line1(span("Local Models".to_string(), Style::Bold)));
    push_block(&mut out, Block::Table { header, rows: table });
    out
}

pub open spec fn local_blocks(models: Seq<(String, u64)>) -> Seq<BlockView> {
    if models.len() == 0 {
        seq![line_of(styled("No local models found."@, Style::Dimmed))]
    } else {
        seq![
            line_of(styled("Local Models"@, Style::Bold)),
            BlockView::Table {
                header: seq!["Model"@, "Size"@],
                rows: Seq::new(
                    models.len(),
                    |i: int|
                        seq![
                            plain(sanitize::line(models[i].0@)),
                            plain(byte_size_text(models[i].1)),
                        ],
                ),
            },
        ]
    }
}

/// The models that are already there.
pub fn print_local_models(models: &Vec<(String, u64)>) -> (r: Vec<Block>)
    ensures
        block_views(r@) == local_blocks(models@),
{
    let mut sized: Vec<(String, String)> = Vec::new();
    for i in 0..models.len()
        invariant
            sized@.len() == i,
            forall|j: int|
                0 <= j < i ==> (#[trigger] sized@[j]).0@ == models@[j].0@ && sized@[j].1@
                    == byte_size_text(models@[j].1),
    {
        sized.push((models[i].0.clone(), byte_size(models[i].1)));
    }
    let out = show_local_models(&sized);
    proof {
        if models@.len() > 0 {
            let shown = Seq::new(
                sized@.len(),
                |i: int| seq![plain(sanitize::line(sized@[i].0@)), plain(sized@[i].1@)],
            );
            let wanted = Seq::new(
                models@.len(),
                |i: int|
                    seq![
                        plain(sanitize::line(models@[i].0@)),
                        plain(byte_size_text(models@[i].1)),
                    ],
            );
            assert(shown =~= wanted);
        }
    }
    out
}

// ---- how a resolution came about -------------------------------------------

pub open spec fn first_of<T>(list: Seq<T>, n: nat) -> Seq<T> {
    if n < list.len() {
        list.take(n as int)
    } else {
        list
    }
}

pub open spec fn refs(traces: Seq<TraceView>) -> Seq<Seq<char>> {
    Seq::new(traces.len(), |i: int| traces[i].full_ref)
}

/// How many of 20 rows are left when the named candidates are shown.
pub open spec fn slots_left(shown: Set<Seq<char>>) -> nat {
    if shown.len() < 20 {
        (20 - shown.len()) as nat
    } else {
        0
    }
}

/// The candidates that were looked up, and are shown.
pub open spec fn shown_checked(d: resolver::DiagnosticsView) -> Seq<TraceView> {
    first_of(d.manifest_checked, 20)
}

/// The candidates that were skipped, and are shown.
pub open spec fn shown_skipped(d: resolver::DiagnosticsView) -> Seq<TraceView> {
    first_of(d.manifest_skipped_by_cap, slots_left(refs(shown_checked(d)).to_set()))
}

/// The names that stand in the table before the deferred candidates.
pub open spec fn named_before(d: resolver::DiagnosticsView) -> Set<Seq<char>> {
    (refs(shown_checked(d)) + refs(shown_skipped(d))).to_set()
}

pub open spec fn unnamed(names: Set<Seq<char>>) -> spec_fn(TraceView) -> bool {
    |t: TraceView| !names.contains(t.full_ref)
}

/// The candidates that were deferred and are shown: those that stand in the
/// table for no other reason.
pub open spec fn shown_deferred(d: resolver::DiagnosticsView) -> Seq<TraceView> {
    first_of(
        search::staying(d.approx_deferred, unnamed(named_before(d))),
        slots_left(named_before(d)),
    )
}

pub open spec fn trace_row(t: TraceView, state: Seq<char>) -> Seq<SpanView> {
    seq![
        plain(sanitize::line(t.full_ref)),
        plain(
            match t.approx_size {
                Some(size) => sanitize::line(size),
                None => "-"@,
            },
        ),
        plain(state),
        plain(sanitize::line(t.decision)),
    ]
}

pub open spec fn trace_rows(traces: Seq<TraceView>, state: Seq<char>) -> Seq<Seq<SpanView>> {
    Seq::new(traces.len(), |i: int| trace_row(traces[i], state))
}

/// The table that explains a resolution; nothing where there was no candidate.
pub open spec fn reasoning(d: resolver::DiagnosticsView) -> Seq<BlockView> {
    if d.manifest_checked.len() == 0 && d.approx_deferred.len() == 0
        && d.manifest_skipped_by_cap.len() == 0 {
        Seq::empty()
    } else {
        seq![
            line_of(styled("Resolution Reasoning"@, Style::Bold)),
            BlockView::Table {
                header: seq!["Candidate"@, "Page size"@, "Manifest"@, "Decision"@],
                rows: trace_rows(shown_checked(d), "checked"@) + trace_rows(
                    shown_skipped(d),
                    "not checked"@,
                ) + trace_rows(shown_deferred(d), "deferred"@),
            },
        ]
    }
}

fn trace_cells(trace: &CandidateTrace, state: &str) -> (r: Vec<Span>)
    ensures
        span_views(r@) == trace_row(trace@, state@),
{
    let size = match &trace.approx_size {
        Some(size) => sanitize::terminal_line(size.as_str()),
        None => "-".to_string(),
    };
    let mut cells: Vec<Span> = Vec::new();
    cells.push(line_span(trace.full_ref.as_str()));
    cells.push(span(size, Style::Plain));
    cells.push(plain_span(state));
    cells.push(line_span(trace.decision.as_str()));
    assert(span_views(cells@) =~= trace_row(trace@, state@));
    cells
}

fn is_named(names: &Vec<String>, name: &str) -> (r: bool)
    ensures
        r == text::texts(names@).to_set().contains(name@),
{
    for i in 0..names.len()
        invariant
            forall|j: int| 0 <= j < i ==> (#[trigger] text::texts(names@)[j]) != name@,
    {
        if text::same_text(names[i].as_str(), name) {
            assert(text::texts(names@)[i as int] == name@);
            return true;
        }
    }
    false
}

/// Each of `names` is different, and together they are those of `list`.
pub open spec fn names_once(names: Seq<String>, list: Seq<Seq<char>>) -> bool {
    &&& text::texts(names).no_duplicates()
    &&& text::texts(names).to_set() == list.to_set()
}

fn note_name(names: &mut Vec<String>, name: &str, Ghost(list): Ghost<Seq<Seq<char>>>)
    requires
        names_once(old(names)@, list),
    ensures
        names_once(final(names)@, list.push(name@)),
{
    let ghost before = text::texts(names@);
    assert(list.push(name@).to_set() =~= list.to_set().insert(name@)) by {
        broadcast use vstd::seq_lib::group_seq_properties;

    }
    if !is_named(names, name) {
        names.push(name.to_string());
        assert(text::texts(names@) =~= before.push(name@));
        assert(before.push(name@).to_set() =~= before.to_set().insert(name@)) by {
            broadcast use vstd::seq_lib::group_seq_properties;

        }
        assert(text::texts(names@).no_duplicates()) by {
            assert forall|i: int, j: int|
                0 <= i < before.len() + 1 && 0 <= j < before.len() + 1 && i != j implies before.push(
                name@,
            )[i] != before.push(name@)[j] by {
                if i == before.len() {
                    assert(before.to_set().contains(before[j]));
                } else if j == before.len() {
                    assert(before.to_set().contains(before[i]));
                }
            }
        }
    } else {
        assert(list.to_set().insert(name@) =~= list.to_set());
    }
}

fn slots(names: &Vec<String>, Ghost(list): Ghost<Seq<Seq<char>>>) -> (r: usize)
    requires
        names_once(names@, list),
    ensures
        r == slots_left(list.to_set()),
{
    proof {
        text::texts(names@).unique_seq_to_set();
        assert(text::texts(names@).len() == names@.len());
    }
    if names.len() < 20 {
        20 - names.len()
    } else {
        0
    }
}

fn push_traces(
    table: &mut Vec<Vec<Span>>,
    names: &mut Vec<String>,
    traces: &Vec<CandidateTrace>,
    limit: usize,
    state: &str,
    Ghost(list): Ghost<Seq<Seq<char>>>,
)
    requires
        names_once(old(names)@, list),
    ensures
        ({
            let shown = first_of(resolver::traces(traces@), limit as nat);
            &&& table_rows(final(table)@) == table_rows(old(table)@) + trace_rows(shown, state@)
            &&& names_once(final(names)@, list + refs(shown))
        }),
{
    let n: usize = if limit < traces.len() {
        limit
    } else {
        traces.len()
    };
    let ghost shown = first_of(resolver::traces(traces@), limit as nat);
    let ghost before = table_rows(table@);
    assert(shown.len() == n);
    assert(list + refs(shown.take(0)) =~= list);
    for i in 0..n
        invariant
            n <= traces@.len(),
            shown.len() == n,
            shown == first_of(resolver::traces(traces@), limit as nat),
            table_rows(table@) =~= before + trace_rows(shown.take(i as int), state@),
            names_once(names@, list + refs(shown.take(i as int))),
    {
        let trace = &traces[i];
        assert(shown[i as int] == trace@);
        note_name(
            names,
            trace.full_ref.as_str(),
            Ghost(list + refs(shown.take(i as int))),
        );
        push_row(table, trace_cells(trace, state));
        assert(refs(shown.take(i + 1)) =~= refs(shown.take(i as int)).push(trace@.full_ref));
        assert(list + refs(shown.take(i + 1)) =~= (list + refs(shown.take(i as int))).push(
            trace@.full_ref,
        ));
        assert(trace_rows(shown.take(i + 1), state@) =~= trace_rows(
            shown.take(i as int),
            state@,
        ).push(trace_row(trace@, state@)));
    }
    assert(shown.take(n as int) =~= shown);
}

/// Explains a resolution: at most 20 candidates, with what became of each.
pub fn print_resolution_diagnostics(diagnostics: &ResolutionDiagnostics) -> (r: Vec<Block>)
    ensures
        block_views(r@) == reasoning(diagnostics@),
{
    let mut out = no_blocks();
    if diagnostics.manifest_checked.len() == 0 && diagnostics.approx_deferred.len() == 0
        && diagnostics.manifest_skipped_by_cap.len() == 0 {
        return out;
    }
    let ghost d = diagnostics@;
    let titles = ["Candidate", "Page size", "Manifest", "Decision"];
    let header = header_of(&titles);
    assert(text::texts(header@) =~= seq!["Candidate"@, "Page size"@, "Manifest"@, "Decision"@]);
    let mut table: Vec<Vec<Span>> = Vec::new();
    let mut names: Vec<String> = Vec::new();
    let ghost none = Seq::<Seq<char>>::empty();
    assert(text::texts(names@) =~= none);
    assert(table_rows(table@) =~= Seq::<Seq<SpanView>>::empty());
    push_traces(
        &mut table,
        &mut names,
        &diagnostics.manifest_checked,
        20,
        "checked",
        Ghost(none),
    );
    let ghost checked = refs(shown_checked(d));
    assert(none + checked =~= checked);
    let left: usize = slots(&names, Ghost(checked));
    push_traces(
        &mut table,
        &mut names,
        &diagnostics.manifest_skipped_by_cap,
        left,
        "not checked",
        Ghost(checked),
    );
    let ghost named = checked + refs(shown_skipped(d));
    let left: usize = slots(&names, Ghost(named));
    let ghost before = table_rows(table@);
    let ghost keep = unnamed(named_before(d));
    let mut added: usize = 0;
    let traces = &diagnostics.approx_deferred;
    let ghost views = d.approx_deferred;
    for i in 0..traces.len()
        invariant
            views == resolver::traces(traces@),
            names_once(names@, named),
            keep == unnamed(named.to_set()),
            added == first_of(search::staying(views.take(i as int), keep), left as nat).len(),
            table_rows(table@) =~= before + trace_rows(
                first_of(search::staying(views.take(i as int), keep), left as nat),
                "deferred"@,
            ),
    {
        let trace = &traces[i];
        let ghost so_far = search::staying(views.take(i as int), keep);
        assert(views.take(i + 1).drop_last() =~= views.take(i as int));
        assert(views[i as int] == trace@);
        if !is_named(&names, trace.full_ref.as_str()) {
            if added < left {
                push_row(&mut table, trace_cells(trace, "deferred"));
                added = added + 1;
                assert(first_of(so_far, left as nat) =~= so_far);
                assert(first_of(so_far.push(trace@), left as nat) =~= so_far.push(trace@));
                assert(trace_rows(so_far.push(trace@), "deferred"@) =~= trace_rows(
                    so_far,
                    "deferred"@,
                ).push(trace_row(trace@, "deferred"@)));
            } else {
                assert(first_of(so_far.push(trace@), left as nat) =~= first_of(
                    so_far,
                    left as nat,
                ));
            }
        }
    }
    assert(views.take(traces@.len() as int) =~= views);
    push_block(&mut out, line1(span("Resolution Reasoning".to_string(), Style::Bold)));
    let block = Block::Table { header, rows: table };
    assert(table_rows(table@) =~= trace_rows(shown_checked(d), "checked"@) + trace_rows(
        shown_skipped(d),
        "not checked"@,
    ) + trace_rows(shown_deferred(d), "deferred"@));
    push_block(&mut out, block);
    assert(block_views(out@) =~= reasoning(d));
    out
}

/// No candidate that was deferred is listed a second time under that head.
pub proof fn law_deferred_rows_are_new(d: resolver::DiagnosticsView, i: int)
    requires
        0 <= i < shown_deferred(d).len(),
    ensures
        !named_before(d).contains(shown_deferred(d)[i].full_ref),
        d.approx_deferred.contains(shown_deferred(d)[i]),
{
    search::law_kept_rows_pass(d.approx_deferred, unnamed(named_before(d)), i);
}

/// The table has at most 20 rows wherever no candidate is listed twice.
pub proof fn law_reasoning_is_short(d: resolver::DiagnosticsView)
    requires
        (refs(shown_checked(d)) + refs(shown_skipped(d))).no_duplicates(),
    ensures
        shown_checked(d).len() + shown_skipped(d).len() + shown_deferred(d).len() <= 20,
{
    let checked = refs(shown_checked(d));
    let both = checked + refs(shown_skipped(d));
    assert(checked.no_duplicates()) by {
        assert forall|i: int, j: int|
            0 <= i < checked.len() && 0 <= j < checked.len() && i != j implies checked[i]
            != checked[j] by {
            assert(both[i] == checked[i] && both[j] == checked[j]);
        }
    }
    checked.unique_seq_to_set();
    both.unique_seq_to_set();
}

// ---- what is shown, in full ------------------------------------------------

/// A line of `blocks` has the label and the spans behind it.
pub open spec fn has_line(blocks: Seq<BlockView>, label: Seq<char>, value: Seq<SpanView>) -> bool {
    exists|i: int| 0 <= i < blocks.len() && #[trigger] blocks[i] == labelled(label, value)
}

/// The summary of a machine shows its GPU, its memory, the available part first, its
/// disk, where models are kept, the policy and what a fit is measured against; the
/// GPU's memory where one is used and has its own; and the sizes are those of the
/// machine.
pub proof fn law_hardware_summary_in_full(hw: HardwareProfile, sizes: HardwareSizesView)
    ensures
        ({
            let blocks = hardware_blocks(hw, sizes);
            &&& has_line(blocks, "GPU:"@, seq![plain(match hw.gpu_name {
                Some(name) => sanitize::line(name@),
                None => "none selected"@,
            })])
            &&& has_line(
                blocks,
                "RAM:"@,
                seq![styled(sizes.ram_available, Style::Green), plain(" / "@ + sizes.ram_total)],
            )
            &&& has_line(blocks, "Disk free:"@, seq![plain(sizes.disk_free)])
            &&& has_line(blocks, "Models dir:"@, seq![plain(sanitize::line(hw.models_dir@))])
            &&& has_line(blocks, "GPU policy:"@, seq![plain(hw.gpu_fit_policy.label_text())])
            &&& has_line(blocks, "Fit basis:"@, seq![plain(sanitize::line(hw.fit_basis_text()))])
            &&& hw.vram_total > 0 && hw.vram_free > 0 && hw.selected_gpu_indices@.len() > 0
                && hw.unified_mem_total == 0 ==> has_line(
                blocks,
                "VRAM basis:"@,
                seq![styled(sizes.vram_total, Style::Green)],
            )
            &&& hw.gpus@.len() > 0 ==> has_line(
                blocks,
                "NVIDIA GPUs:"@,
                seq![
                    plain(
                        text::decimal(hw.gpus@.len()) + " detected, "@ + text::decimal(
                            types::visible_count(hw.gpus@),
                        ) + " CUDA-visible, "@ + text::decimal(hw.selected_gpu_indices@.len())
                            + " used for fit"@,
                    ),
                ],
            )
        }),
        hardware_sizes(hw) == (HardwareSizesView {
            vram_total: byte_size_text(hw.vram_total),
            ram_available: byte_size_text(hw.ram_available),
            ram_total: byte_size_text(hw.ram_total),
            disk_free: byte_size_text(hw.disk_free),
        }),
{
    let blocks = hardware_blocks(hw, sizes);
    let n = blocks.len() as int;
    assert(blocks[1] == labelled("GPU:"@, seq![plain(gpu_name_text(hw))]));
    assert(blocks[n - 6] == labelled(
        "RAM:"@,
        seq![styled(sizes.ram_available, Style::Green), plain(" / "@ + sizes.ram_total)],
    ));
    assert(blocks[n - 5] == labelled("Disk free:"@, seq![plain(sizes.disk_free)]));
    assert(blocks[n - 4] == labelled("Models dir:"@, seq![plain(sanitize::line(hw.models_dir@))]));
    assert(blocks[n - 3] == labelled("GPU policy:"@, seq![plain(hw.gpu_fit_policy.label_text())]));
    assert(blocks[n - 2] == labelled(
        "Fit basis:"@,
        seq![plain(sanitize::line(hw.fit_basis_text()))],
    ));
    if hw.is_gpu_usable() && hw.unified_mem_total == 0 {
        assert(blocks[n - 7] == labelled("VRAM basis:"@, seq![styled(sizes.vram_total, Style::Green)]));
    }
    if hw.gpus@.len() > 0 {
        assert(blocks[2] == labelled("NVIDIA GPUs:"@, seq![plain(gpu_counts_text(hw))]));
    }
}

/// A text is cut only where it is too long; then it keeps its start, and ends in an
/// ellipsis.
pub proof fn law_truncation(value: Seq<char>, max: nat)
    ensures
        ({
            let safe = sanitize::line(value);
            let shown = truncated(value, max);
            &&& safe.len() <= max ==> shown == safe
            &&& safe.len() > max && max > 0 ==> shown.len() == max && shown.subrange(0, max - 1)
                == safe.subrange(0, max - 1) && shown.last() == '\u{2026}'
            &&& safe.len() > 0 && max == 0 ==> shown.len() == 1
        }),
{
    reveal_strlit("…");
    let safe = sanitize::line(value);
    let shown = truncated(value, max);
    if safe.len() > max && max > 0 {
        assert(shown.subrange(0, max - 1) =~= safe.subrange(0, max - 1));
        assert("…"@[0] == '\u{2026}');
    }
}

/// A row of the wide table has a cell for the name, the variant, the verdict, the
/// weights, the pulls, the tags, the update and the description. Without a variant
/// the reason stands in its place; the weights of a variant for macOS only are not
/// known.
pub proof fn law_wide_row_in_full(shown: ShownRowView, weights: Seq<char>)
    ensures
        ({
            let row = shown.row;
            let cells = wide_row(shown, weights);
            &&& cells.len() == 8
            &&& cells[0] == plain(sanitize::line(row.result.name@))
            &&& cells[4] == plain(sanitize::line(row.result.pulls@))
            &&& cells[5] == plain(sanitize::line(row.result.tag_count@))
            &&& cells[6] == plain(sanitize::line(row.result.updated@))
            &&& cells[7] == plain(truncated(row.result.description@, 72))
            &&& row.variant is Some && row.fit is Some ==> {
                let fit = row.fit->Some_0;
                &&& cells[1] == plain(sanitize::line(row.variant->Some_0.full_ref))
                &&& cells[2].text == fit.summary_text(shown.gpu_pct.rounded)
                &&& fit is FitsVram ==> cells[2].style == Style::Green
                &&& fit is FitsWithSplit || fit is FitsRamOnly ==> cells[2].style == Style::Yellow
                &&& fit is DoesNotFit || fit is InsufficientDisk ==> cells[2].style == Style::Red
                &&& !(fit is MacosOnly) ==> cells[3] == plain(weights)
                &&& fit is MacosOnly ==> cells[3] == plain("—"@)
            }
            &&& row.variant is None || row.fit is None ==> {
                &&& cells[1] == plain("-"@) && cells[3] == plain("-"@)
                &&& cells[2] == no_variant_cell(row)
            }
        }),
{
}

/// Why a row has no variant: the model runs in the cloud only, is for macOS only, or
/// could not be resolved for the reason that is shown.
pub proof fn law_reason_without_variant(row: RowView)
    ensures
        row.filtered == Some(FilteredReason::CloudOnly) ==> no_variant_cell(row).text
            == "cloud-only"@,
        row.filtered == Some(FilteredReason::PlatformRestricted) ==> no_variant_cell(row).text
            == "macOS-only"@,
        row.filtered is None && row.error is Some ==> no_variant_cell(row).text == sanitize::line(
            row.error->Some_0,
        ),
        row.filtered is None && row.error is None ==> no_variant_cell(row).text == sanitize::line(
            "unavailable"@,
        ),
{
}

/// A line of the compact layout holds the same as a row of the table: name and
/// variant, then the verdict, then weights, pulls, tags, update and description.
pub proof fn law_compact_row_in_full(shown: ShownRowView, weights: Seq<char>)
    ensures
        ({
            let row = shown.row;
            let name = "  "@ + text::padded(sanitize::line(row.result.name@), 32) + " "@;
            let tail = "   "@ + sanitize::line(row.result.pulls@) + "   "@ + text::padded(
                sanitize::line(row.result.tag_count@),
                5,
            ) + "   "@ + sanitize::line(row.result.updated@) + "   "@ + truncated(
                row.result.description@,
                48,
            );
            &&& compact_row(shown, weights) matches BlockView::Line(spans) && spans.len() == 3 && {
                &&& row.variant is Some && row.fit is Some ==> {
                    let fit = row.fit->Some_0;
                    &&& spans[0].text == name + text::padded(
                        sanitize::line(row.variant->Some_0.full_ref),
                        16,
                    ) + "   "@
                    &&& fit is FitsVram ==> spans[1].text == "✓ fits GPU"@
                    &&& fit is FitsWithSplit ==> spans[1].text == "~ "@ + shown.gpu_pct.whole
                        + "% GPU"@
                    &&& fit is FitsRamOnly ==> spans[1].text == "~ RAM / CPU"@
                    &&& fit is DoesNotFit ==> spans[1].text == "✗ does not fit"@
                    &&& fit is InsufficientDisk ==> spans[1].text == "✗ disk short"@
                    &&& fit is MacosOnly ==> spans[1].text == "macOS-only"@
                    &&& !(fit is MacosOnly) ==> spans[2].text == "   "@ + weights + tail
                    &&& fit is MacosOnly ==> spans[2].text == "   "@ + "—"@ + tail
                }
                &&& row.variant is None || row.fit is None ==> {
                    &&& spans[0].text == name + "-"@ + "   "@
                    &&& spans[1] == no_variant_cell(row)
                    &&& spans[2].text == "   "@ + "-"@ + tail
                }
            }
        }),
{
}

/// Every row of a search is shown once, in order, with the weights of its own
/// variant, in the table as in the compact layout.
pub proof fn law_every_row_is_shown(rows: Seq<ShownRowView>, i: int)
    requires
        0 <= i < rows.len(),
    ensures
        wide_table(rows) matches BlockView::Table { header, rows: shown } && shown.len()
            == rows.len() && header.len() == 8 && (rows[i].row.variant matches Some(v) ==> shown[i]
            == wide_row(rows[i], byte_size_text(v.weights_bytes))) && (rows[i].row.variant is None
            ==> shown[i] == wide_row(rows[i], Seq::empty())),
        compact_lines(rows).len() == rows.len(),
        rows[i].row.variant matches Some(v) ==> compact_lines(rows)[i] == compact_row(
            rows[i],
            byte_size_text(v.weights_bytes),
        ),
        rows[i].row.variant is None ==> compact_lines(rows)[i] == compact_row(
            rows[i],
            Seq::empty(),
        ),
{
}

/// Where rows are hidden, one line says how many for each reason that there is; where
/// none is, there is no line.
pub proof fn law_hidden_rows_are_told(cloud: u64, platform: u64, fit: u64)
    ensures
        ({
            let parts = hidden_parts(cloud, platform, fit);
            let told = hidden_blocks(cloud, platform, fit);
            &&& cloud == 0 && platform == 0 && fit == 0 <==> told.len() == 0
            &&& told.len() <= 1
            &&& parts.contains(text::decimal(cloud as nat) + " cloud-only"@) <== cloud > 0
            &&& parts.contains(text::decimal(platform as nat) + " platform-restricted"@) <== platform
                > 0
            &&& parts.contains(text::decimal(fit as nat) + " does not fit"@) <== fit > 0
            &&& parts.len() == (if cloud > 0 {
                1int
            } else {
                0
            }) + (if platform > 0 {
                1int
            } else {
                0
            }) + (if fit > 0 {
                1int
            } else {
                0
            })
            &&& told.len() == 1 ==> (told[0] matches BlockView::Line(spans) && spans.len() == 3
                && spans[1].text == text::join(parts, ", "@))
        }),
{
    let parts = hidden_parts(cloud, platform, fit);
    if cloud > 0 {
        assert(parts[0] == text::decimal(cloud as nat) + " cloud-only"@);
    }
    if platform > 0 {
        let at = if cloud > 0 {
            1int
        } else {
            0
        };
        assert(parts[at] == text::decimal(platform as nat) + " platform-restricted"@);
    }
    if fit > 0 {
        assert(parts[parts.len() - 1] == text::decimal(fit as nat) + " does not fit"@);
    }
}

/// The verdict on a resolved model says which memory it fits, or what it needs and
/// what there is, in the sizes of the verdict itself.
pub proof fn law_indicator_in_full(fit: FitResult, gpu_pct: GpuPctView)
    ensures
        ({
            let (need, have) = shortfall(fit);
            let spans = indicator(fit, gpu_pct, need, have);
            &&& spans.len() == 3
            &&& fit is FitsVram ==> spans[2].text == " Fits the selected GPU VRAM basis"@
            &&& fit is FitsWithSplit ==> spans[2].text == " Fits with VRAM/RAM split ("@
                + gpu_pct.rounded + "% GPU)"@
            &&& fit is FitsRamOnly ==> spans[2].text == " Fits in RAM for CPU inference"@
            &&& fit matches FitResult::DoesNotFit { need: n, have: h } ==> spans[2].text
                == " Does not fit: need "@ + byte_size_text(n) + ", have "@ + byte_size_text(h)
            &&& fit matches FitResult::InsufficientDisk { need: n, have: h } ==> spans[2].text
                == " Estimated disk shortfall: approximately need "@ + byte_size_text(n) + ", have "@
                + byte_size_text(h)
            &&& fit is MacosOnly ==> spans[2].text
                == " Requires macOS; size and fit are not known here"@
            &&& fit is FitsVram <==> spans[1].text == "✓"@
            &&& fit is DoesNotFit || fit is InsufficientDisk <==> spans[1].text == "✗"@
        }),
{
    reveal_strlit("✓");
    reveal_strlit("~");
    reveal_strlit("✗");
    assert("✓"@[0] != "~"@[0] && "✓"@[0] != "✗"@[0] && "~"@[0] != "✗"@[0]);
}

/// A resolved variant is shown with its name, the sizes of its weights, of its
/// download and of its memory, its context and margin, and, where the tag names them,
/// its parameters and quantization.
pub proof fn law_variant_summary_in_full(
    variant: VariantView,
    sizes: VariantSizesView,
    params: Seq<char>,
)
    ensures
        ({
            let blocks = variant_blocks(variant, sizes, params);
            &&& has_line(
                blocks,
                "Model:"@,
                seq![styled(sanitize::line(variant.full_ref), Style::Bold)],
            )
            &&& has_line(blocks, "Weights:"@, seq![plain(sizes.weights)])
            &&& has_line(blocks, "Approx. pull:"@, seq![plain(sizes.total)])
            &&& has_line(blocks, "Est. runtime:"@, seq![plain(sizes.runtime)])
            &&& has_line(
                blocks,
                "Context:"@,
                seq![plain(text::decimal(variant.context_tokens as nat) + " tokens"@)],
            )
            &&& has_line(
                blocks,
                "Margin:"@,
                seq![plain(text::decimal(variant.runtime_margin_pct as nat) + "%"@)],
            )
            &&& variant.param_billions is Some ==> has_line(
                blocks,
                "Parameters:"@,
                seq![plain(params + "B "@), styled("(tag hint)"@, Style::Dimmed)],
            )
            &&& variant.quantization is Some ==> has_line(
                blocks,
                "Quantization:"@,
                seq![
                    plain(sanitize::line(variant.quantization->Some_0) + " "@),
                    styled("(tag hint)"@, Style::Dimmed),
                ],
            )
        }),
        variant_sizes(variant) == (VariantSizesView {
            weights: byte_size_text(variant.weights_bytes),
            total: byte_size_text(variant.total_bytes),
            runtime: byte_size_text(variant.estimated_runtime_bytes),
        }),
{
    let blocks = variant_blocks(variant, sizes, params);
    let n = blocks.len() as int;
    assert(blocks[1] == labelled(
        "Model:"@,
        seq![styled(sanitize::line(variant.full_ref), Style::Bold)],
    ));
    assert(blocks[2] == labelled("Weights:"@, seq![plain(sizes.weights)]));
    assert(blocks[3] == labelled("Approx. pull:"@, seq![plain(sizes.total)]));
    assert(blocks[4] == labelled("Est. runtime:"@, seq![plain(sizes.runtime)]));
    assert(blocks[5] == labelled(
        "Context:"@,
        seq![plain(text::decimal(variant.context_tokens as nat) + " tokens"@)],
    ));
    assert(blocks[6] == labelled(
        "Margin:"@,
        seq![plain(text::decimal(variant.runtime_margin_pct as nat) + "%"@)],
    ));
    if variant.param_billions is Some {
        assert(blocks[7] == labelled(
            "Parameters:"@,
            seq![plain(params + "B "@), styled("(tag hint)"@, Style::Dimmed)],
        ));
    }
    if variant.quantization is Some {
        assert(blocks[n - 6] == labelled(
            "Quantization:"@,
            seq![
                plain(sanitize::line(variant.quantization->Some_0) + " "@),
                styled("(tag hint)"@, Style::Dimmed),
            ],
        ));
    }
}

/// The table that explains a resolution lists the candidates that were looked up,
/// the first twenty at most, then those that were skipped, then those that were
/// deferred, each with its own name, size label, state and decision.
pub proof fn law_reasoning_in_full(d: resolver::DiagnosticsView, i: int)
    requires
        0 <= i < d.manifest_checked.len(),
        i < 20,
    ensures
        reasoning(d).len() == 2,
        reasoning(d)[1] matches BlockView::Table { rows, .. } && i < rows.len() && rows[i]
            == trace_row(d.manifest_checked[i], "checked"@),
        trace_row(d.manifest_checked[i], "checked"@).len() == 4,
        trace_row(d.manifest_checked[i], "checked"@)[0].text == sanitize::line(
            d.manifest_checked[i].full_ref,
        ),
        d.manifest_checked[i].approx_size matches Some(size) ==> trace_row(
            d.manifest_checked[i],
            "checked"@,
        )[1].text == sanitize::line(size),
        trace_row(d.manifest_checked[i], "checked"@)[2].text == "checked"@,
        trace_row(d.manifest_checked[i], "checked"@)[3].text == sanitize::line(
            d.manifest_checked[i].decision,
        ),
{
    let rows = trace_rows(shown_checked(d), "checked"@) + trace_rows(
        shown_skipped(d),
        "not checked"@,
    ) + trace_rows(shown_deferred(d), "deferred"@);
    assert(rows[i] == trace_rows(shown_checked(d), "checked"@)[i]);
}

/// The skipped candidates that are shown are the first of them, behind those that were
/// looked up; as many as leave room for twenty names.
pub proof fn law_skipped_candidates_are_shown(d: resolver::DiagnosticsView, i: int)
    requires
        0 <= i < shown_skipped(d).len(),
    ensures
        shown_skipped(d)[i] == d.manifest_skipped_by_cap[i],
        refs(shown_checked(d)).to_set().len() + shown_skipped(d).len() <= 20,
        d.manifest_skipped_by_cap.len() <= 20 - refs(shown_checked(d)).to_set().len()
            ==> shown_skipped(d) == d.manifest_skipped_by_cap,
        reasoning(d)[1] matches BlockView::Table { rows, .. } && rows[shown_checked(d).len() + i]
            == trace_row(d.manifest_skipped_by_cap[i], "not checked"@),
{
    let rows = trace_rows(shown_checked(d), "checked"@) + trace_rows(
        shown_skipped(d),
        "not checked"@,
    ) + trace_rows(shown_deferred(d), "deferred"@);
    assert(rows[shown_checked(d).len() + i] == trace_rows(shown_skipped(d), "not checked"@)[i]);
}

/// The models that are already there are listed in order, each with its own size.
pub proof fn law_local_models_are_listed(models: Seq<(String, u64)>, i: int)
    requires
        0 <= i < models.len(),
    ensures
        local_blocks(models).len() == 2,
        local_blocks(models)[1] matches BlockView::Table { rows, .. } && rows.len() == models.len()
            && rows[i].len() == 2 && rows[i][0].text == sanitize::line(models[i].0@)
            && rows[i][1].text == byte_size_text(models[i].1),
{
}

/// A row of the browse holds the name, the size range or a dash, the pulls, the tags,
/// the update and the description of its own model.
pub proof fn law_browse_rows_in_full(result: SearchResult, size: Option<Seq<char>>)
    ensures
        ({
            let cells = browse_row((result, size));
            &&& cells.len() == 6
            &&& cells[0].text == sanitize::line(result.name@)
            &&& size matches Some(s) ==> cells[1].text == sanitize::line(s)
            &&& size is None ==> cells[1].text == "—"@
            &&& cells[2].text == sanitize::line(result.pulls@)
            &&& cells[3].text == sanitize::line(result.tag_count@)
            &&& cells[4].text == sanitize::line(result.updated@)
            &&& cells[5].text == truncated(result.description@, 96)
            &&& browse_line((result, size)) == line_of(
                plain(
                    "  "@ + text::padded(sanitize::line(result.name@), 32) + " "@ + text::padded(
                        cells[1].text,
                        18,
                    ) + " "@ + text::padded(sanitize::line(result.pulls@), 13) + " "@
                        + text::padded(sanitize::line(result.tag_count@), 6) + " "@ + text::padded(
                        sanitize::line(result.updated@),
                        15,
                    ) + " "@ + truncated(result.description@, 48),
                ),
            )
        }),
{
}

/// A row counts as one for macOS only exactly if its verdict or its reason says so.
pub proof fn law_which_rows_are_for_macos(row: RowView)
    ensures
        row.fit == Some(FitResult::MacosOnly) ==> is_macos_row(row),
        row.filtered == Some(FilteredReason::PlatformRestricted) ==> is_macos_row(row),
        row.filtered != Some(FilteredReason::PlatformRestricted) && (row.fit is None || !(
        row.fit->Some_0 is MacosOnly)) ==> !is_macos_row(row),
{
}

/// The deferred candidates that are shown are the first of those that stand in the
/// table for no other reason, behind all others; as many as leave room for twenty
/// names.
pub proof fn law_deferred_candidates_are_shown(d: resolver::DiagnosticsView, i: int)
    requires
        0 <= i < shown_deferred(d).len(),
    ensures
        named_before(d).len() + shown_deferred(d).len() <= 20,
        reasoning(d)[1] matches BlockView::Table { rows, .. } && rows[shown_checked(d).len()
            + shown_skipped(d).len() + i] == trace_row(shown_deferred(d)[i], "deferred"@),
        shown_deferred(d)[i] == search::staying(d.approx_deferred, unnamed(named_before(d)))[i],
{
    let rows = trace_rows(shown_checked(d), "checked"@) + trace_rows(
        shown_skipped(d),
        "not checked"@,
    ) + trace_rows(shown_deferred(d), "deferred"@);
    assert(rows[shown_checked(d).len() + shown_skipped(d).len() + i] == trace_rows(
        shown_deferred(d),
        "deferred"@,
    )[i]);
    law_deferred_rows_are_new(d, i);
    assert(d.approx_deferred.len() > 0);
}

/// In a narrow column green stands for a model that uses the GPU, yellow for one that
/// runs without it, red for one that does not run or cannot be stored, and cyan for one
/// that is for macOS; only a split tells a share, that of the GPU.
pub proof fn law_compact_verdict(fit: FitResult, pct: GpuPctView, other: GpuPctView)
    ensures
        compact_fit(fit, pct).style == Style::Green <==> fit is FitsVram || fit is FitsWithSplit,
        compact_fit(fit, pct).style == Style::Yellow <==> fit is FitsRamOnly,
        compact_fit(fit, pct).style == Style::Red <==> fit is DoesNotFit || fit is InsufficientDisk,
        compact_fit(fit, pct).style == Style::Cyan <==> fit is MacosOnly,
        fit is FitsWithSplit ==> text::contains(compact_fit(fit, pct).text, pct.whole + "% GPU"@),
        !(fit is FitsWithSplit) ==> compact_fit(fit, pct) == compact_fit(fit, other),
        fit is FitsVram ==> compact_fit(fit, pct).text == "✓ fits GPU"@,
        fit is FitsRamOnly ==> compact_fit(fit, pct).text == "~ RAM / CPU"@,
        fit is DoesNotFit ==> compact_fit(fit, pct).text == "✗ does not fit"@,
        fit is InsufficientDisk ==> compact_fit(fit, pct).text == "✗ disk short"@,
        fit is MacosOnly ==> compact_fit(fit, pct).text == "macOS-only"@,
{
    let share = pct.whole + "% GPU"@;
    let whole = "~ "@ + pct.whole + "% GPU"@;
    let at = "~ "@.len() as int;
    assert(whole.subrange(at, at + share.len()) =~= share);
    assert(text::occurs_at(whole, share, at));
}

/// Whatever the variant, it is said that its fit is an estimate, what that rests on and
/// what may change it, each in a dimmed line of its own.
pub proof fn law_estimates_are_explained(
    variant: VariantView,
    sizes: VariantSizesView,
    params: Seq<char>,
)
    ensures
        ({
            let blocks = variant_blocks(variant, sizes, params);
            let n = blocks.len();
            &&& n >= 5
            &&& blocks[n - 4] == BlockView::Line(
                seq![
                    SpanView { text: "  "@, style: Style::Plain, width: 0 },
                    SpanView {
                        text: "Fit is an estimate based on registry weights, context tokens, GPU policy, and runtime margin."@,
                        style: Style::Dimmed,
                        width: 0,
                    },
                ],
            )
            &&& blocks[n - 3] == BlockView::Line(
                seq![
                    SpanView { text: "  "@, style: Style::Plain, width: 0 },
                    SpanView {
                        text: "Actual memory can change with context length, architecture, quantization, and offload behavior."@,
                        style: Style::Dimmed,
                        width: 0,
                    },
                ],
            )
            &&& blocks[n - 2] == BlockView::Line(
                seq![
                    SpanView { text: "  "@, style: Style::Plain, width: 0 },
                    SpanView {
                        text: "Approx. pull size may overstate network/disk use when layers already exist locally."@,
                        style: Style::Dimmed,
                        width: 0,
                    },
                ],
            )
        }),
{
}

} // verus!
