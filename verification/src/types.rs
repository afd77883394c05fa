//! The data that the library works on: hardware, tags, variants and verdicts.

use vstd::prelude::*;

use crate::text;

verus! {

/// Which NVIDIA memory a fit estimate counts.
#[derive(Debug, Clone, Copy, PartialEq, Eq, Structural)]
pub enum GpuFitPolicy {
    /// The single CUDA-visible GPU with the most memory.
    Best,
    /// All CUDA-visible GPUs together.
    VisibleSum,
    /// All detected GPUs together, whatever `CUDA_VISIBLE_DEVICES` says.
    AllSum,
}

impl GpuFitPolicy {
    pub open spec fn label_text(self) -> Seq<char> {
        match self {
            GpuFitPolicy::Best => "best"@,
            GpuFitPolicy::VisibleSum => "visible-sum"@,
            GpuFitPolicy::AllSum => "all-sum"@,
        }
    }

    /// The policy's name on the command line.
    pub fn label(&self) -> (r: String)
        ensures
            r@ == self.label_text(),
    {
        match self {
            GpuFitPolicy::Best => "best".to_string(),
            GpuFitPolicy::VisibleSum => "visible-sum".to_string(),
            GpuFitPolicy::AllSum => "all-sum".to_string(),
        }
    }
}

#[derive(Debug, Clone, PartialEq, Eq)]
pub struct GpuInfo {
    pub index: u32,
    pub uuid: Option<String>,
    pub name: String,
    pub vram_total: u64,
    pub vram_free: u64,
    pub visible: bool,
}

/// What is known of the machine. Sizes are in bytes.
#[derive(Debug, Clone)]
pub struct HardwareProfile {
    pub gpu_name: Option<String>,
    pub vram_total: u64,
    /// Always the same as `vram_total` on a detected machine.
    pub vram_free: u64,
    pub ram_total: u64,
    pub ram_available: u64,
    pub disk_free: u64,
    pub models_dir: String,
    pub gpus: Vec<GpuInfo>,
    pub selected_gpu_indices: Vec<u32>,
    pub cuda_visible_devices: Option<String>,
    pub gpu_fit_policy: GpuFitPolicy,
    /// The size of the memory that CPU and GPU share on Apple Silicon; 0 elsewhere.
    pub unified_mem_total: u64,
}

/// How many of the GPUs are visible.
pub open spec fn visible_count(gpus: Seq<GpuInfo>) -> nat
    decreases gpus.len(),
{
    if gpus.len() == 0 {
        0
    } else {
        visible_count(gpus.drop_last()) + if gpus.last().visible {
            1nat
        } else {
            0nat
        }
    }
}

pub open spec fn saturate_u64(n: int) -> u64 {
    if n > u64::MAX {
        u64::MAX
    } else {
        n as u64
    }
}

impl HardwareProfile {
    pub open spec fn is_gpu_usable(self) -> bool {
        self.vram_total > 0 && self.vram_free > 0 && self.selected_gpu_indices@.len() > 0
    }

    pub fn has_gpu(&self) -> (r: bool)
        ensures
            r == self.is_gpu_usable(),
    {
        self.vram_total > 0 && self.vram_free > 0 && self.selected_gpu_indices.len() > 0
    }

    pub fn visible_gpu_count(&self) -> (r: usize)
        ensures
            r == visible_count(self.gpus@),
    {
        let mut n: usize = 0;
        for i in 0..self.gpus.len()
            invariant
                n == visible_count(self.gpus@.take(i as int)),
                n <= i,
        {
            assert(self.gpus@.take(i + 1).drop_last() =~= self.gpus@.take(i as int));
            if self.gpus[i].visible {
                n = n + 1;
            }
        }
        assert(self.gpus@.take(self.gpus@.len() as int) =~= self.gpus@);
        n
    }

    pub fn selected_gpu_count(&self) -> (r: usize)
        ensures
            r == self.selected_gpu_indices@.len(),
    {
        self.selected_gpu_indices.len()
    }

    /// The shared memory that is free right now; all of it where the reading of
    /// the free part failed and left 0.
    pub open spec fn unified_ceiling(self) -> u64 {
        if self.ram_available > 0 {
            self.ram_available
        } else {
            self.unified_mem_total
        }
    }

    pub fn unified_fit_ceiling(&self) -> (r: u64)
        ensures
            r == self.unified_ceiling(),
    {
        if self.ram_available > 0 {
            self.ram_available
        } else {
            self.unified_mem_total
        }
    }

    /// The memory that a model may take up: the shared pool where there is one,
    /// else the GPU's memory (with the system's on top where the model may be
    /// split), else the system's.
    pub open spec fn runtime_bytes(self, allow_split: bool) -> u64 {
        if self.unified_mem_total > 0 {
            self.unified_ceiling()
        } else if !self.is_gpu_usable() {
            self.ram_available
        } else if allow_split {
            saturate_u64(self.vram_free + self.ram_available)
        } else {
            self.vram_free
        }
    }

    pub fn available_runtime_bytes(&self, allow_split: bool) -> (r: u64)
        ensures
            r == self.runtime_bytes(allow_split),
    {
        if self.unified_mem_total > 0 {
            return self.unified_fit_ceiling();
        }
        if self.has_gpu() {
            if allow_split {
                self.vram_free.saturating_add(self.ram_available)
            } else {
                self.vram_free
            }
        } else {
            self.ram_available
        }
    }

    pub open spec fn fit_basis_text(self) -> Seq<char> {
        if !self.is_gpu_usable() {
            if self.gpus@.len() == 0 {
                "system RAM (CPU-only; no NVIDIA GPU detected)"@
            } else {
                "system RAM (no CUDA-visible NVIDIA GPU selected)"@
            }
        } else if self.unified_mem_total > 0 {
            "Apple Silicon unified memory"@
        } else {
            match self.gpu_fit_policy {
                GpuFitPolicy::Best => "single CUDA-visible NVIDIA GPU with the most free VRAM"@,
                GpuFitPolicy::VisibleSum => "sum of CUDA-visible NVIDIA GPU free VRAM"@,
                GpuFitPolicy::AllSum =>
                    "sum of all detected NVIDIA GPU free VRAM; ignores CUDA_VISIBLE_DEVICES"@,
            }
        }
    }

    /// What a fit estimate is measured against, in words.
    pub fn gpu_fit_basis(&self) -> (r: String)
        ensures
            r@ == self.fit_basis_text(),
    {
        if !self.has_gpu() {
            if self.gpus.len() == 0 {
                return "system RAM (CPU-only; no NVIDIA GPU detected)".to_string();
            }
            return "system RAM (no CUDA-visible NVIDIA GPU selected)".to_string();
        }
        if self.unified_mem_total > 0 {
            return "Apple Silicon unified memory".to_string();
        }
        match self.gpu_fit_policy {
            GpuFitPolicy::Best => {
                "single CUDA-visible NVIDIA GPU with the most free VRAM".to_string()
            },
            GpuFitPolicy::VisibleSum => "sum of CUDA-visible NVIDIA GPU free VRAM".to_string(),
            GpuFitPolicy::AllSum => {
                "sum of all detected NVIDIA GPU free VRAM; ignores CUDA_VISIBLE_DEVICES".to_string()
            },
        }
    }
}

/// On Apple Silicon there is one pool of memory, so allowing a split between
/// GPU and system memory changes nothing.
pub proof fn law_split_is_idle_on_unified_memory(hw: HardwareProfile)
    requires
        hw.unified_mem_total > 0,
    ensures
        hw.runtime_bytes(true) == hw.runtime_bytes(false),
{
}

/// Allowing a split never leaves less memory.
pub proof fn law_split_never_shrinks_memory(hw: HardwareProfile)
    ensures
        hw.runtime_bytes(false) <= hw.runtime_bytes(true),
{
}

/// A parameter count in billions, held as the bit pattern of a binary64
/// floating-point number: the highest bit is the sign, and the other bits are
/// ordered as the absolute values are.
#[derive(Debug, Clone, Copy, PartialEq, Eq, Structural)]
pub struct ParamCount {
    pub bits: u64,
}

/// The highest bit of a pattern.
pub const SIGN_BIT: u64 = 0x8000_0000_0000_0000;

/// The pattern of infinity. Without the sign, what lies above it is not a number.
pub const INFINITY_BITS: u64 = 0x7ff0_0000_0000_0000;

impl ParamCount {
    pub open spec fn magnitude(self) -> int {
        self.bits as int % SIGN_BIT as int
    }

    pub open spec fn is_number(self) -> bool {
        self.magnitude() <= INFINITY_BITS
    }

    /// An integer for each pattern, ordered as the numbers are.
    pub open spec fn key(self) -> int {
        if self.bits >= SIGN_BIT {
            -self.magnitude()
        } else {
            self.magnitude()
        }
    }

    /// Whether this count is below another. What is not a number is neither below
    /// nor above anything.
    pub open spec fn is_below(self, other: ParamCount) -> bool {
        self.is_number() && other.is_number() && self.key() < other.key()
    }

    pub(crate) fn below(self, other: ParamCount) -> (r: bool)
        ensures
            r == self.is_below(other),
    {
        let a: u64 = self.bits % SIGN_BIT;
        let b: u64 = other.bits % SIGN_BIT;
        if a > INFINITY_BITS || b > INFINITY_BITS {
            return false;
        }
        if self.bits >= SIGN_BIT {
            if other.bits >= SIGN_BIT {
                a > b
            } else {
                a > 0 || b > 0
            }
        } else {
            other.bits < SIGN_BIT && a < b
        }
    }
}

#[derive(Debug, Clone)]
pub struct ModelVariant {
    pub name: String,
    pub tag: String,
    pub full_ref: String,
    pub weights_bytes: u64,
    pub total_bytes: u64,
    pub estimated_runtime_bytes: u64,
    pub runtime_margin_pct: u32,
    pub context_tokens: u32,
    pub param_billions: Option<ParamCount>,
    pub quantization: Option<String>,
    pub is_instruct: bool,
}

/// A `ModelVariant` with its texts as character sequences.
pub struct VariantView {
    pub name: Seq<char>,
    pub tag: Seq<char>,
    pub full_ref: Seq<char>,
    pub weights_bytes: u64,
    pub total_bytes: u64,
    pub estimated_runtime_bytes: u64,
    pub runtime_margin_pct: u32,
    pub context_tokens: u32,
    pub param_billions: Option<ParamCount>,
    pub quantization: Option<Seq<char>>,
    pub is_instruct: bool,
}

impl View for ModelVariant {
    type V = VariantView;

    open spec fn view(&self) -> VariantView {
        VariantView {
            name: self.name@,
            tag: self.tag@,
            full_ref: self.full_ref@,
            weights_bytes: self.weights_bytes,
            total_bytes: self.total_bytes,
            estimated_runtime_bytes: self.estimated_runtime_bytes,
            runtime_margin_pct: self.runtime_margin_pct,
            context_tokens: self.context_tokens,
            param_billions: self.param_billions,
            quantization: text::opt_text(self.quantization),
            is_instruct: self.is_instruct,
        }
    }
}

#[derive(Debug)]
pub struct SearchResult {
    pub name: String,
    pub description: String,
    pub pulls: String,
    pub tag_count: String,
    pub updated: String,
}

impl Clone for SearchResult {
    fn clone(&self) -> (r: SearchResult)
        ensures
            r == *self,
    {
        SearchResult {
            name: self.name.clone(),
            description: self.description.clone(),
            pulls: self.pulls.clone(),
            tag_count: self.tag_count.clone(),
            updated: self.updated.clone(),
        }
    }
}

/// Why a search row has no variant that runs here.
#[derive(Debug, Clone, Copy, PartialEq, Eq, Structural)]
pub enum FilteredReason {
    /// The model has no weights to run locally.
    CloudOnly,
    /// The registry serves the model to macOS only.
    PlatformRestricted,
}

#[derive(Debug, Clone)]
pub struct AnnotatedSearchResult {
    pub result: SearchResult,
    pub variant: Option<ModelVariant>,
    pub fit: Option<FitResult>,
    pub error: Option<String>,
    pub filtered: Option<FilteredReason>,
}

#[derive(Debug)]
pub struct TagInfo {
    pub tag: String,
    pub full_ref: String,
    pub approx_size: Option<String>,
    pub param_billions: Option<ParamCount>,
    pub quantization: Option<String>,
    pub is_instruct: bool,
}

impl Clone for TagInfo {
    fn clone(&self) -> (r: TagInfo)
        ensures
            r == *self,
    {
        TagInfo {
            tag: self.tag.clone(),
            full_ref: self.full_ref.clone(),
            approx_size: text::copy_opt(&self.approx_size),
            param_billions: self.param_billions,
            quantization: text::copy_opt(&self.quantization),
            is_instruct: self.is_instruct,
        }
    }
}

impl TagInfo {
    /// The same tag, text for text.
    pub open spec fn is_like(self, other: TagInfo) -> bool {
        &&& self.tag@ == other.tag@
        &&& self.full_ref@ == other.full_ref@
        &&& text::opt_text(self.approx_size) == text::opt_text(other.approx_size)
        &&& self.param_billions == other.param_billions
        &&& text::opt_text(self.quantization) == text::opt_text(other.quantization)
        &&& self.is_instruct == other.is_instruct
    }

    pub open spec fn is_default_quantized(self) -> bool {
        self.tag@ == "latest"@ || match self.quantization {
            Some(q) => text::lower(q@) == text::lower("q4_k_m"@),
            None => true,
        }
    }

    /// Whether the tag has the quantization that Ollama pulls by default: the
    /// tag `latest`, a tag without a label, or `Q4_K_M` in any case.
    pub fn has_default_quantization(&self) -> (r: bool)
        ensures
            r == self.is_default_quantized(),
    {
        if text::same_text(self.tag.as_str(), "latest") {
            return true;
        }
        match &self.quantization {
            Some(q) => text::same_ignoring_case(
                text::chars_of(q.as_str()).as_slice(),
                text::chars_of("q4_k_m").as_slice(),
            ),
            None => true,
        }
    }

    pub open spec fn approx_bytes(self) -> Option<u64> {
        match self.approx_size {
            Some(label) => human_size(label@),
            None => None,
        }
    }

    /// The size that the tag page gives, in bytes.
    pub fn approx_size_bytes(&self) -> (r: Option<u64>)
        ensures
            r == self.approx_bytes(),
    {
        match &self.approx_size {
            Some(label) => parse_human_size_bytes(label.as_str()),
            None => None,
        }
    }

    /// Whether the registry serves this tag to macOS only, by the tag's name.
    pub fn is_macos_only(&self) -> (r: bool)
        ensures
            r == macos_only_text(self.tag@),
    {
        is_macos_only_tag(self.tag.as_str())
    }
}

/// A verdict on whether a variant runs on a machine. Sizes are in bytes.
#[derive(Debug, Clone, Copy, PartialEq, Eq, Structural)]
pub enum FitResult {
    FitsVram,
    /// The model is spread over GPU and system memory; `gpu_bytes` of the
    /// `need` bytes find room on the GPU.
    FitsWithSplit { gpu_bytes: u64, need: u64 },
    FitsRamOnly,
    DoesNotFit { need: u64, have: u64 },
    InsufficientDisk { need: u64, have: u64 },
    /// The registry serves the variant to macOS only, so its size is unknown.
    MacosOnly,
}

impl FitResult {
    pub open spec fn is_fit(self) -> bool {
        self is FitsVram || self is FitsWithSplit || self is FitsRamOnly
    }

    pub fn fits(&self) -> (r: bool)
        ensures
            r == self.is_fit(),
    {
        match self {
            FitResult::FitsVram => true,
            FitResult::FitsWithSplit { .. } => true,
            FitResult::FitsRamOnly => true,
            FitResult::DoesNotFit { .. } => false,
            FitResult::InsufficientDisk { .. } => false,
            FitResult::MacosOnly => false,
        }
    }

    pub open spec fn summary_text(self, gpu_pct: Seq<char>) -> Seq<char> {
        match self {
            FitResult::FitsVram => "fits GPU VRAM basis"@,
            FitResult::FitsWithSplit { .. } => "fits with split ("@ + gpu_pct + "% GPU)"@,
            FitResult::FitsRamOnly => "fits RAM / CPU"@,
            FitResult::DoesNotFit { .. } => "does not fit"@,
            FitResult::InsufficientDisk { .. } => "estimated disk shortfall"@,
            FitResult::MacosOnly => "macOS-only"@,
        }
    }

    /// The verdict in a few words. `gpu_pct` is the share of the model that a
    /// split puts on the GPU, in whole percent; only that verdict shows it.
    pub fn summary(&self, gpu_pct: &str) -> (r: String)
        ensures
            r@ == self.summary_text(gpu_pct@),
    {
        match self {
            FitResult::FitsVram => "fits GPU VRAM basis".to_string(),
            FitResult::FitsWithSplit { .. } => {
                "fits with split (".to_string().concat(gpu_pct).concat("% GPU)")
            },
            FitResult::FitsRamOnly => "fits RAM / CPU".to_string(),
            FitResult::DoesNotFit { .. } => "does not fit".to_string(),
            FitResult::InsufficientDisk { .. } => "estimated disk shortfall".to_string(),
            FitResult::MacosOnly => "macOS-only".to_string(),
        }
    }
}

// ---- parameter counts ------------------------------------------------------

/// The parameter count that a tag names, still in digits.
#[derive(Debug, Clone, PartialEq, Eq)]
pub enum ParamLiteral {
    /// One number of billions, as in `7b`.
    Plain { number: String },
    /// A number of experts and the billions of each, as in `8x7b`.
    Product { experts: String, each: String },
}

pub enum ParamLiteralView {
    Plain { number: Seq<char> },
    Product { experts: Seq<char>, each: Seq<char> },
}

impl View for ParamLiteral {
    type V = ParamLiteralView;

    open spec fn view(&self) -> ParamLiteralView {
        match self {
            ParamLiteral::Plain { number } => ParamLiteralView::Plain { number: number@ },
            ParamLiteral::Product { experts, each } => ParamLiteralView::Product {
                experts: experts@,
                each: each@,
            },
        }
    }
}

/// How often `c` stands in `s`.
pub open spec fn count_char(s: Seq<char>, c: char) -> nat
    decreases s.len(),
{
    if s.len() == 0 {
        0
    } else {
        count_char(s.drop_last(), c) + if s.last() == c {
            1nat
        } else {
            0nat
        }
    }
}

pub fn count_of(s: &[char], c: char) -> (r: usize)
    ensures
        r == count_char(s@, c),
{
    let mut n: usize = 0;
    for i in 0..s.len()
        invariant
            n == count_char(s@.take(i as int), c),
            n <= i,
    {
        assert(s@.take(i + 1).drop_last() =~= s@.take(i as int));
        if s[i] == c {
            n = n + 1;
        }
    }
    assert(s@.take(s@.len() as int) =~= s@);
    n
}

pub open spec fn is_digit_or_dot(c: char) -> bool {
    text::is_digit(c) || c == '.'
}

pub open spec fn digits_and_dots(s: Seq<char>) -> bool {
    forall|i: int| 0 <= i < s.len() ==> is_digit_or_dot(s[i])
}

/// Digits with at most one dot among them: a decimal number without an exponent.
pub open spec fn is_decimal_literal(s: Seq<char>) -> bool {
    digits_and_dots(s) && count_char(s, '.') <= 1 && exists|i: int|
        0 <= i < s.len() && text::is_digit(#[trigger] s[i])
}

fn decimal_literal(s: &[char]) -> (r: bool)
    ensures
        r == is_decimal_literal(s@),
{
    let mut seen: bool = false;
    for i in 0..s.len()
        invariant
            forall|j: int| 0 <= j < i ==> is_digit_or_dot(s@[j]),
            seen == exists|j: int| 0 <= j < i && text::is_digit(#[trigger] s@[j]),
    {
        if text::digit(s[i]) {
            seen = true;
            assert(text::is_digit(s@[i as int]));
        } else if s[i] != '.' {
            assert(!is_digit_or_dot(s@[i as int]));
            return false;
        }
    }
    seen && count_of(s, '.') <= 1
}

/// `s` without a leading plus or minus sign.
pub open spec fn unsigned_part(s: Seq<char>) -> Seq<char> {
    if s.len() > 0 && (s[0] == '+' || s[0] == '-') {
        s.drop_first()
    } else {
        s
    }
}

fn without_sign(s: &[char]) -> (r: &[char])
    ensures
        r@ == unsigned_part(s@),
{
    if s.len() > 0 && (s[0] == '+' || s[0] == '-') {
        let r = vstd::slice::slice_subrange(s, 1, s.len());
        assert(r@ =~= s@.drop_first());
        r
    } else {
        s
    }
}

/// The position of the first `c` in `s`; the length of `s` if there is none.
pub open spec fn first_char(s: Seq<char>, c: char) -> int
    decreases s.len(),
{
    if s.len() == 0 || s[0] == c {
        0
    } else {
        1 + first_char(s.drop_first(), c)
    }
}

pub proof fn lemma_first_char(s: Seq<char>, c: char)
    ensures
        0 <= first_char(s, c) <= s.len(),
        first_char(s, c) < s.len() ==> s[first_char(s, c)] == c,
        forall|i: int| 0 <= i < first_char(s, c) ==> s[i] != c,
    decreases s.len(),
{
    if s.len() > 0 && s[0] != c {
        lemma_first_char(s.drop_first(), c);
        assert forall|i: int| 0 <= i < first_char(s, c) implies s[i] != c by {
            if i > 0 {
                assert(s.drop_first()[i - 1] == s[i]);
            }
        }
    }
}

pub fn position(s: &[char], c: char) -> (r: usize)
    ensures
        r == first_char(s@, c),
        r <= s@.len(),
{
    let mut i: usize = 0;
    assert(s@.skip(0) =~= s@);
    while i < s.len() && s[i] != c
        invariant
            i <= s@.len(),
            i + first_char(s@.skip(i as int), c) == first_char(s@, c),
        decreases s.len() - i,
    {
        assert(s@.skip(i as int).drop_first() =~= s@.skip(i + 1));
        i = i + 1;
    }
    i
}

/// Lower-case notation of a floating-point number: an optional sign, then
/// `inf`, `infinity`, `nan`, or a decimal number with an optional exponent.
pub open spec fn is_float_literal(s: Seq<char>) -> bool {
    let u = unsigned_part(s);
    let e = first_char(u, 'e');
    ||| u == "inf"@
    ||| u == "infinity"@
    ||| u == "nan"@
    ||| if e < u.len() {
        let exponent = unsigned_part(u.skip(e + 1));
        is_decimal_literal(u.take(e)) && exponent.len() > 0 && text::all_digits(exponent)
    } else {
        is_decimal_literal(u)
    }
}

fn digits_only(s: &[char]) -> (r: bool)
    ensures
        r == text::all_digits(s@),
{
    for i in 0..s.len()
        invariant
            forall|j: int| 0 <= j < i ==> text::is_digit(s@[j]),
    {
        if !text::digit(s[i]) {
            assert(!text::is_digit(s@[i as int]));
            return false;
        }
    }
    true
}

fn float_literal(s: &[char]) -> (r: bool)
    ensures
        r == is_float_literal(s@),
{
    let u = without_sign(s);
    if text::same_chars(u, text::chars_of("inf").as_slice()) || text::same_chars(u, text::chars_of("infinity").as_slice())
        || text::same_chars(u, text::chars_of("nan").as_slice()) {
        return true;
    }
    let e = position(u, 'e');
    if e < u.len() {
        let mantissa = vstd::slice::slice_subrange(u, 0, e);
        let tail = vstd::slice::slice_subrange(u, e + 1, u.len());
        assert(mantissa@ =~= u@.take(e as int));
        assert(tail@ =~= u@.skip(e + 1));
        let exponent = without_sign(tail);
        decimal_literal(mantissa) && exponent.len() > 0 && digits_only(exponent)
    } else {
        decimal_literal(u)
    }
}

/// The number in a segment such as `7b` or `0.5b`.
pub open spec fn billions(segment: Seq<char>) -> Option<Seq<char>> {
    if segment.len() > 0 && segment.last() == 'b' && is_decimal_literal(segment.drop_last()) {
        Some(segment.drop_last())
    } else {
        None
    }
}

fn parse_b_suffix(segment: &[char]) -> (r: Option<String>)
    ensures
        text::opt_text(r) == billions(segment@),
{
    let n: usize = segment.len();
    if n == 0 || segment[n - 1] != 'b' {
        return None;
    }
    let number = vstd::slice::slice_subrange(segment, 0, n - 1);
    assert(number@ =~= segment@.drop_last());
    if decimal_literal(number) {
        Some(text::string_of(number))
    } else {
        None
    }
}

/// The count in the first segment, from `from` on, that holds one. A segment
/// with an `x` that is no product of two numbers ends the search.
pub open spec fn param_in(segments: Seq<Seq<char>>, from: int) -> Option<ParamLiteralView>
    decreases segments.len() - from,
{
    if from < 0 || from >= segments.len() {
        None
    } else {
        let segment = text::lower(segments[from]);
        let x = first_char(segment, 'x');
        match billions(segment) {
            Some(number) => Some(ParamLiteralView::Plain { number }),
            None => if x >= segment.len() {
                param_in(segments, from + 1)
            } else if !is_float_literal(segment.take(x)) {
                None
            } else {
                match billions(segment.skip(x + 1)) {
                    Some(each) => Some(
                        ParamLiteralView::Product { experts: segment.take(x), each },
                    ),
                    None => None,
                }
            },
        }
    }
}

pub open spec fn opt_literal(p: Option<ParamLiteral>) -> Option<ParamLiteralView> {
    match p {
        Some(l) => Some(l@),
        None => None,
    }
}

/// The parameter count that a tag names: `7b`, `0.5b-instruct`, `8x7b`. Tags
/// follow no standard, so a tag without one is no error.
pub fn param_literal(tag: &str) -> (r: Option<ParamLiteral>)
    ensures
        opt_literal(r) == param_in(text::split(tag@, seq!['-', ':']), 0),
{
    let seps: Vec<char> = vec!['-', ':'];
    let segments = text::split_chars(text::chars_of(tag).as_slice(), seps.as_slice());
    assert(seps@ =~= seq!['-', ':']);
    let ghost all = text::buffers(segments@);
    for i in 0..segments.len()
        invariant
            all == text::buffers(segments@),
            all == text::split(tag@, seq!['-', ':']),
            param_in(all, 0) == param_in(all, i as int),
    {
        let segment = text::to_lower(segments[i].as_slice());
        assert(segments@[i as int]@ == all[i as int]);
        if let Some(number) = parse_b_suffix(segment.as_slice()) {
            return Some(ParamLiteral::Plain { number });
        }
        let x = position(segment.as_slice(), 'x');
        if x < segment.len() {
            let left = vstd::slice::slice_subrange(segment.as_slice(), 0, x);
            let right = vstd::slice::slice_subrange(segment.as_slice(), x + 1, segment.len());
            assert(left@ =~= segment@.take(x as int));
            assert(right@ =~= segment@.skip(x + 1));
            if !float_literal(left) {
                return None;
            }
            return match parse_b_suffix(right) {
                Some(each) => Some(ParamLiteral::Product { experts: text::string_of(left), each }),
                None => None,
            };
        }
    }
    None
}

// ---- quantization ----------------------------------------------------------

/// A quantization label: `q`, a digit and something more, or one of four names.
pub open spec fn is_quantization_label(part: Seq<char>) -> bool {
    let l = text::lower(part);
    ||| (l.len() > 2 && l[0] == 'q' && text::is_digit(l[1]))
    ||| l == "fp16"@
    ||| l == "fp32"@
    ||| l == "f16"@
    ||| l == "f32"@
}

pub open spec fn quantization_in(parts: Seq<Seq<char>>, from: int) -> Option<Seq<char>>
    decreases parts.len() - from,
{
    if from < 0 || from >= parts.len() {
        None
    } else if is_quantization_label(parts[from]) {
        Some(parts[from])
    } else {
        quantization_in(parts, from + 1)
    }
}

/// The first quantization label among the parts of a tag, as the tag spells it.
pub fn parse_quantization(tag: &str) -> (r: Option<String>)
    ensures
        text::opt_text(r) == quantization_in(text::split(tag@, seq!['-']), 0),
{
    let seps: Vec<char> = vec!['-'];
    let parts = text::split_chars(text::chars_of(tag).as_slice(), seps.as_slice());
    assert(seps@ =~= seq!['-']);
    let ghost all = text::buffers(parts@);
    for i in 0..parts.len()
        invariant
            all == text::buffers(parts@),
            all == text::split(tag@, seq!['-']),
            quantization_in(all, 0) == quantization_in(all, i as int),
    {
        assert(parts@[i as int]@ == all[i as int]);
        let l = text::to_lower(parts[i].as_slice());
        if (l.len() > 2 && l[0] == 'q' && text::digit(l[1])) || text::same_chars(
            l.as_slice(),
            text::chars_of("fp16").as_slice(),
        ) || text::same_chars(l.as_slice(), text::chars_of("fp32").as_slice()) || text::same_chars(
            l.as_slice(),
            text::chars_of("f16").as_slice(),
        ) || text::same_chars(l.as_slice(), text::chars_of("f32").as_slice()) {
            return Some(text::string_of(parts[i].as_slice()));
        }
    }
    None
}

// ---- size labels -----------------------------------------------------------

/// `s` without its blanks.
pub open spec fn without_blanks(s: Seq<char>) -> Seq<char>
    decreases s.len(),
{
    if s.len() == 0 {
        s
    } else if s.last() == ' ' {
        without_blanks(s.drop_last())
    } else {
        without_blanks(s.drop_last()).push(s.last())
    }
}

fn drop_blanks(s: &[char]) -> (r: Vec<char>)
    ensures
        r@ == without_blanks(s@),
{
    let mut out: Vec<char> = Vec::new();
    for i in 0..s.len()
        invariant
            out@ == without_blanks(s@.take(i as int)),
    {
        assert(s@.take(i + 1).drop_last() =~= s@.take(i as int));
        if s[i] != ' ' {
            out.push(s[i]);
        }
    }
    assert(s@.take(s@.len() as int) =~= s@);
    out
}

/// How many digits and dots `s` starts with.
pub open spec fn number_len(s: Seq<char>) -> nat
    decreases s.len(),
{
    if s.len() > 0 && is_digit_or_dot(s[0]) {
        1 + number_len(s.drop_first())
    } else {
        0
    }
}

fn leading_number(s: &[char]) -> (r: usize)
    ensures
        r == number_len(s@),
        r <= s@.len(),
        digits_and_dots(s@.take(r as int)),
{
    let mut i: usize = 0;
    assert(s@.skip(0) =~= s@);
    while i < s.len() && (text::digit(s[i]) || s[i] == '.')
        invariant
            i <= s@.len(),
            i + number_len(s@.skip(i as int)) == number_len(s@),
            forall|j: int| 0 <= j < i ==> is_digit_or_dot(s@[j]),
        decreases s.len() - i,
    {
        assert(s@.skip(i as int).drop_first() =~= s@.skip(i + 1));
        i = i + 1;
    }
    i
}

/// The bytes in one of a decimal unit, in any case.
pub open spec fn unit_bytes(unit: Seq<char>) -> Option<nat> {
    let u = text::lower(unit);
    if u == "b"@ {
        Some(1)
    } else if u == "kb"@ {
        Some(1_000)
    } else if u == "mb"@ {
        Some(1_000_000)
    } else if u == "gb"@ {
        Some(1_000_000_000)
    } else if u == "tb"@ {
        Some(1_000_000_000_000)
    } else {
        None
    }
}

fn unit_scale(unit: &[char]) -> (r: Option<u64>)
    ensures
        match r {
            Some(n) => unit_bytes(unit@) == Some(n as nat) && 1 <= n <= 1_000_000_000_000,
            None => unit_bytes(unit@) is None,
        },
{
    let u = text::to_lower(unit);
    if text::same_chars(u.as_slice(), text::chars_of("b").as_slice()) {
        Some(1)
    } else if text::same_chars(u.as_slice(), text::chars_of("kb").as_slice()) {
        Some(1_000)
    } else if text::same_chars(u.as_slice(), text::chars_of("mb").as_slice()) {
        Some(1_000_000)
    } else if text::same_chars(u.as_slice(), text::chars_of("gb").as_slice()) {
        Some(1_000_000_000)
    } else if text::same_chars(u.as_slice(), text::chars_of("tb").as_slice()) {
        Some(1_000_000_000_000)
    } else {
        None
    }
}

pub open spec fn pow10(n: nat) -> nat
    decreases n,
{
    if n == 0 {
        1
    } else {
        10 * pow10((n - 1) as nat)
    }
}

/// The bytes that the digits behind the dot stand for, rounded down. More than
/// 38 digits are no number here.
pub open spec fn fraction_bytes(digits: Seq<char>, scale: nat) -> Option<nat> {
    if digits.len() > 38 {
        None
    } else {
        let product = text::digits_value(digits) * scale;
        Some(
            (if product > u128::MAX {
                u128::MAX as nat
            } else {
                product
            }) / pow10(digits.len()),
        )
    }
}

/// The bytes that a label such as `4.7GB` or `512 MB` stands for.
pub open spec fn human_size(label: Seq<char>) -> Option<u64> {
    let compact = without_blanks(text::trim(label));
    let n = number_len(compact) as int;
    let number = compact.take(n);
    let dot = first_char(number, '.');
    let whole = number.take(dot);
    let fraction = if dot < number.len() {
        number.skip(dot + 1)
    } else {
        Seq::empty()
    };
    if n == 0 || n == compact.len() || count_char(number, '.') > 1 {
        None
    } else {
        match (
            unit_bytes(compact.skip(n)),
            text::unsigned(whole, u128::MAX as nat),
        ) {
            (Some(scale), Some(w)) => match fraction_bytes(fraction, scale) {
                Some(f) => if w * scale + f <= u64::MAX {
                    Some((w * scale + f) as u64)
                } else {
                    None
                },
                None => None,
            },
            _ => None,
        }
    }
}

proof fn lemma_pow10_bound(n: nat)
    requires
        n <= 38,
    ensures
        0 < pow10(n) <= 100_000_000_000_000_000_000_000_000_000_000_000_000,
{
    assert(pow10(10) == 10_000_000_000) by {
        reveal_with_fuel(pow10, 11);
    }
    assert(pow10(20) == 100_000_000_000_000_000_000) by {
        reveal_with_fuel(pow10, 11);
    }
    assert(pow10(30) == 1_000_000_000_000_000_000_000_000_000_000) by {
        reveal_with_fuel(pow10, 11);
    }
    assert(pow10(38) == 100_000_000_000_000_000_000_000_000_000_000_000_000) by {
        reveal_with_fuel(pow10, 9);
    }
    lemma_pow10_grows(n, 38);
}

proof fn lemma_pow10_grows(a: nat, b: nat)
    requires
        a <= b,
    ensures
        0 < pow10(a) <= pow10(b),
    decreases b,
{
    if a < b {
        lemma_pow10_grows(a, (b - 1) as nat);
    } else if a > 0 {
        lemma_pow10_grows((a - 1) as nat, (a - 1) as nat);
    }
}

fn power_of_ten(n: usize) -> (r: u128)
    requires
        n <= 38,
    ensures
        r == pow10(n as nat),
        r > 0,
{
    let mut r: u128 = 1;
    for i in 0..n
        invariant
            n <= 38,
            r == pow10(i as nat),
    {
        proof {
            lemma_pow10_bound((i + 1) as nat);
        }
        r = 10 * r;
    }
    proof {
        lemma_pow10_bound(n as nat);
    }
    r
}

proof fn lemma_digits_value_bound(s: Seq<char>)
    requires
        text::all_digits(s),
    ensures
        text::digits_value(s) < pow10(s.len()),
    decreases s.len(),
{
    if s.len() > 0 {
        assert forall|i: int| 0 <= i < s.drop_last().len() implies text::is_digit(s.drop_last()[i]) by {
            assert(text::is_digit(s[i]));
        }
        lemma_digits_value_bound(s.drop_last());
        assert(text::is_digit(s[s.len() - 1]));
    }
}

fn parse_fraction(digits: &[char], scale: u64) -> (r: Option<u128>)
    requires
        text::all_digits(digits@),
        1 <= scale <= 1_000_000_000_000,
    ensures
        match r {
            Some(f) => fraction_bytes(digits@, scale as nat) == Some(f as nat),
            None => fraction_bytes(digits@, scale as nat) is None,
        },
{
    if digits.len() > 38 {
        return None;
    }
    let ten = power_of_ten(digits.len());
    let mut value: u128 = 0;
    for i in 0..digits.len()
        invariant
            digits@.len() <= 38,
            text::all_digits(digits@),
            value == text::digits_value(digits@.take(i as int)),
    {
        let c = digits[i];
        assert(text::is_digit(digits@[i as int]));
        assert(digits@.take(i + 1).drop_last() =~= digits@.take(i as int));
        proof {
            assert(text::all_digits(digits@.take(i + 1)));
            lemma_digits_value_bound(digits@.take(i + 1));
            lemma_pow10_bound((i + 1) as nat);
        }
        value = value * 10 + (c as u32 - '0' as u32) as u128;
    }
    assert(digits@.take(digits@.len() as int) =~= digits@);
    let product: u128 = match value.checked_mul(scale as u128) {
        Some(p) => p,
        None => u128::MAX,
    };
    Some(product / ten)
}

proof fn lemma_dots(s: Seq<char>, dot: int)
    requires
        digits_and_dots(s),
        count_char(s, '.') <= 1,
        dot == first_char(s, '.'),
    ensures
        0 <= dot <= s.len(),
        text::all_digits(s.take(dot)),
        dot < s.len() ==> text::all_digits(s.skip(dot + 1)),
{
    lemma_first_char(s, '.');
    assert forall|i: int| 0 <= i < dot implies text::is_digit(#[trigger] s.take(dot)[i]) by {
        assert(is_digit_or_dot(s[i]));
    }
    if dot < s.len() {
        assert forall|i: int| 0 <= i < s.skip(dot + 1).len() implies text::is_digit(
            #[trigger] s.skip(dot + 1)[i],
        ) by {
            let k = dot + 1 + i;
            assert(is_digit_or_dot(s[k]));
            if s[k] == '.' {
                lemma_two_dots(s, dot, k);
            }
        }
    }
}

proof fn lemma_two_dots(s: Seq<char>, i: int, j: int)
    requires
        0 <= i < j < s.len(),
        s[i] == '.',
        s[j] == '.',
    ensures
        count_char(s, '.') >= 2,
    decreases s.len(),
{
    if j == s.len() - 1 {
        lemma_one_dot(s.drop_last(), i);
    } else {
        lemma_two_dots(s.drop_last(), i, j);
    }
}

proof fn lemma_one_dot(s: Seq<char>, i: int)
    requires
        0 <= i < s.len(),
        s[i] == '.',
    ensures
        count_char(s, '.') >= 1,
    decreases s.len(),
{
    if i < s.len() - 1 {
        lemma_one_dot(s.drop_last(), i);
    }
}

/// Reads a size label from a tag page, such as `4.7GB` or `512 MB`: decimal
/// units in any case, blanks anywhere. The label is a hint; exact sizes come from
/// registry manifests.
pub fn parse_human_size_bytes(value: &str) -> (r: Option<u64>)
    ensures
        r == human_size(value@),
{
    let chars = text::chars_of(value);
    let compact = drop_blanks(text::trimmed(chars.as_slice()));
    let n = leading_number(compact.as_slice());
    let number = vstd::slice::slice_subrange(compact.as_slice(), 0, n);
    assert(number@ =~= compact@.take(n as int));
    if n == 0 || n == compact.len() || count_of(number, '.') > 1 {
        return None;
    }
    let unit = vstd::slice::slice_subrange(compact.as_slice(), n, compact.len());
    assert(unit@ =~= compact@.skip(n as int));
    let scale: u64 = match unit_scale(unit) {
        Some(s) => s,
        None => {
            return None;
        },
    };
    let dot = position(number, '.');
    proof {
        lemma_dots(number@, dot as int);
    }
    let whole_digits = vstd::slice::slice_subrange(number, 0, dot);
    assert(whole_digits@ =~= number@.take(dot as int));
    let whole: u128 = match text::parse_unsigned(whole_digits, u128::MAX) {
        Some(w) => w,
        None => {
            return None;
        },
    };
    let fraction_from: usize = if dot < number.len() {
        dot + 1
    } else {
        dot
    };
    let fraction = vstd::slice::slice_subrange(number, fraction_from, number.len());
    assert(fraction@ =~= if dot < number@.len() {
        number@.skip(dot + 1)
    } else {
        Seq::empty()
    });
    let part: u128 = match parse_fraction(fraction, scale) {
        Some(f) => f,
        None => {
            return None;
        },
    };
    let bytes: u128 = match whole.checked_mul(scale as u128) {
        Some(b) => b,
        None => {
            return None;
        },
    };
    match bytes.checked_add(part) {
        Some(total) => if total <= u64::MAX as u128 {
            Some(total as u64)
        } else {
            None
        },
        None => None,
    }
}

// ---- tags ------------------------------------------------------------------

pub open spec fn instruct_text(tag: Seq<char>) -> bool {
    !text::contains(text::lower(tag), "base"@)
}

/// Whether a tag is for use as an assistant: every tag but those of base models.
pub fn is_instruct_tag(tag: &str) -> (r: bool)
    ensures
        r == instruct_text(tag@),
{
    !text::has(text::to_lower(text::chars_of(tag).as_slice()).as_slice(), text::chars_of("base").as_slice())
}

pub open spec fn macos_only_text(tag: Seq<char>) -> bool {
    text::contains(text::lower(tag), "nvfp4"@)
}

/// Whether a tag names a variant that the registry serves to macOS only.
pub fn is_macos_only_tag(tag: &str) -> (r: bool)
    ensures
        r == macos_only_text(tag@),
{
    text::has(text::to_lower(text::chars_of(tag).as_slice()).as_slice(), text::chars_of("nvfp4").as_slice())
}

/// What a tag's name says of it. `param_billions` is the value of the tag's
/// `param_literal`.
pub fn tag_info_from_str(model: &str, tag: &str, param_billions: Option<ParamCount>) -> (r: TagInfo)
    ensures
        r.tag@ == tag@,
        r.full_ref@ == model@ + ":"@ + tag@,
        r.approx_size is None,
        r.param_billions == param_billions,
        text::opt_text(r.quantization) == quantization_in(text::split(tag@, seq!['-']), 0),
        r.is_instruct == instruct_text(tag@),
{
    TagInfo {
        tag: tag.to_string(),
        full_ref: model.to_string().concat(":").concat(tag),
        approx_size: None,
        param_billions,
        quantization: parse_quantization(tag),
        is_instruct: is_instruct_tag(tag),
    }
}

// ---- laws ------------------------------------------------------------------

/// Parameter counts that are not negative are ordered as their bit patterns are,
/// up to the pattern of infinity; beyond it nothing is above or below anything.
pub proof fn law_counts_are_ordered_by_pattern(a: ParamCount, b: ParamCount)
    requires
        a.bits < 0x8000_0000_0000_0000,
        b.bits < 0x8000_0000_0000_0000,
    ensures
        a.bits <= 0x7ff0_0000_0000_0000 && b.bits <= 0x7ff0_0000_0000_0000 ==> (a.is_below(b)
            <==> a.bits < b.bits),
        a.bits > 0x7ff0_0000_0000_0000 || b.bits > 0x7ff0_0000_0000_0000 ==> !a.is_below(b),
        a.is_number() <==> a.bits <= 0x7ff0_0000_0000_0000,
{
}

/// Setting the sign bit turns the order of two numbers round, puts every number
/// below those that are not negative, and leaves both zeros equal.
pub proof fn law_the_sign_turns_counts_round(a: ParamCount, b: ParamCount)
    requires
        a.bits <= 0x7ff0_0000_0000_0000,
        b.bits <= 0x7ff0_0000_0000_0000,
    ensures
        ({
            let x = ParamCount { bits: (a.bits + 0x8000_0000_0000_0000) as u64 };
            let y = ParamCount { bits: (b.bits + 0x8000_0000_0000_0000) as u64 };
            &&& x.is_below(y) <==> b.is_below(a)
            &&& x.is_below(b) <==> a.bits > 0 || b.bits > 0
            &&& !b.is_below(x)
        }),
{
}

/// The default quantization: the tag `latest`, a tag without a label, or the label
/// `q4_k_m` with its letters in either case.
pub proof fn law_default_quantization(tag: TagInfo)
    ensures
        tag.tag@ == "latest"@ || tag.quantization is None ==> tag.is_default_quantized(),
        tag.tag@ != "latest"@ && tag.quantization is Some ==> (tag.is_default_quantized() <==> ({
            let q = tag.quantization->Some_0@;
            &&& q.len() == 6
            &&& q[0] == 'q' || q[0] == 'Q'
            &&& q[1] == '4'
            &&& q[2] == '_'
            &&& q[3] == 'k' || q[3] == 'K'
            &&& q[4] == '_'
            &&& q[5] == 'm' || q[5] == 'M'
        })),
{
    reveal_strlit("q4_k_m");
    let want = text::lower("q4_k_m"@);
    assert(want.len() == 6);
    assert(want[0] == 'q' && want[1] == '4' && want[2] == '_' && want[3] == 'k' && want[4] == '_'
        && want[5] == 'm');
    if let Some(label) = tag.quantization {
        let q = label@;
        let l = text::lower(q);
        if l == want {
            assert(l[0] == 'q' && l[1] == '4' && l[2] == '_' && l[3] == 'k' && l[4] == '_' && l[5]
                == 'm');
        }
        if q.len() == 6 && (q[0] == 'q' || q[0] == 'Q') && q[1] == '4' && q[2] == '_' && (q[3]
            == 'k' || q[3] == 'K') && q[4] == '_' && (q[5] == 'm' || q[5] == 'M') {
            assert(l =~= want);
        }
    }
}

/// The quantization of a tag is the first of its parts that is a label, as the tag
/// spells it; without one there is none.
pub proof fn law_quantization_is_the_first_label(parts: Seq<Seq<char>>, k: int)
    requires
        0 <= k <= parts.len(),
        forall|i: int| 0 <= i < k ==> !is_quantization_label(#[trigger] parts[i]),
    ensures
        k < parts.len() && is_quantization_label(parts[k]) ==> quantization_in(parts, 0) == Some(
            parts[k],
        ),
        k == parts.len() ==> quantization_in(parts, 0) is None,
{
    lemma_quantization_from(parts, 0, k);
}

proof fn lemma_quantization_from(parts: Seq<Seq<char>>, from: int, k: int)
    requires
        0 <= from <= k <= parts.len(),
        forall|i: int| from <= i < k ==> !is_quantization_label(#[trigger] parts[i]),
    ensures
        quantization_in(parts, from) == quantization_in(parts, k),
    decreases k - from,
{
    if from < k {
        assert(!is_quantization_label(parts[from]));
        lemma_quantization_from(parts, from + 1, k);
    }
}

/// A label: a `q`, a digit and at least one character more, or `fp16`, `fp32`, `f16`
/// or `f32`; letters in either case.
pub proof fn law_quantization_labels(part: Seq<char>)
    ensures
        is_quantization_label(part) <==> {
            ||| part.len() >= 3 && (part[0] == 'q' || part[0] == 'Q') && '0' <= part[1] <= '9'
            ||| text::lower(part) == "fp16"@
            ||| text::lower(part) == "fp32"@
            ||| text::lower(part) == "f16"@
            ||| text::lower(part) == "f32"@
        },
{
    let l = text::lower(part);
    assert(l.len() == part.len());
    if part.len() >= 2 {
        assert(l[0] == text::lower_char(part[0]) && l[1] == text::lower_char(part[1]));
    }
}

/// The number of billions of parameters is read from the first part of a tag that is
/// a number and a `b`; parts before it without an `x` do not matter.
pub proof fn law_parameters_are_in_the_first_number(segments: Seq<Seq<char>>, k: int)
    requires
        0 <= k <= segments.len(),
        forall|i: int|
            0 <= i < k ==> billions(text::lower(#[trigger] segments[i])) is None && forall|j: int|
                0 <= j < segments[i].len() ==> text::lower(segments[i])[j] != 'x',
    ensures
        k == segments.len() ==> param_in(segments, 0) is None,
        k < segments.len() && billions(text::lower(segments[k])) is Some ==> param_in(segments, 0)
            == Some(
            ParamLiteralView::Plain { number: billions(text::lower(segments[k]))->Some_0 },
        ),
{
    lemma_param_from(segments, 0, k);
}

proof fn lemma_param_from(segments: Seq<Seq<char>>, from: int, k: int)
    requires
        0 <= from <= k <= segments.len(),
        forall|i: int|
            from <= i < k ==> billions(text::lower(#[trigger] segments[i])) is None && forall|
                j: int,
            | 0 <= j < segments[i].len() ==> text::lower(segments[i])[j] != 'x',
    ensures
        param_in(segments, from) == param_in(segments, k),
    decreases k - from,
{
    if from < k {
        let segment = text::lower(segments[from]);
        lemma_first_char(segment, 'x');
        lemma_param_from(segments, from + 1, k);
    }
}

/// A number of experts, an `x`, a number and a `b` stand for a product.
pub proof fn law_experts_make_a_product(experts: Seq<char>, each: Seq<char>, rest: Seq<Seq<char>>)
    requires
        experts.len() > 0,
        each.len() > 0,
        text::all_digits(experts),
        text::all_digits(each),
    ensures
        param_in(seq![experts + "x"@ + each + "b"@] + rest, 0) == Some(
            ParamLiteralView::Product { experts, each },
        ),
        param_in(seq![each + "b"@] + rest, 0) == Some(ParamLiteralView::Plain { number: each }),
{
    reveal_strlit("x");
    reveal_strlit("b");
    let segment = experts + "x"@ + each + "b"@;
    assert forall|i: int| 0 <= i < experts.len() implies text::is_digit(#[trigger] experts[i]) by {}
    assert forall|i: int| 0 <= i < each.len() implies text::is_digit(#[trigger] each[i]) by {}
    let n = experts.len() as int;
    assert(segment[n] == 'x');
    assert(segment.last() == 'b');
    assert(text::lower(segment) =~= segment) by {
        assert forall|i: int| 0 <= i < segment.len() implies text::lower_char(segment[i])
            == segment[i] by {
            if i < n {
                assert(text::is_digit(experts[i]));
            } else if n < i < segment.len() - 1 {
                assert(text::is_digit(each[i - n - 1]));
            }
        }
    }
    lemma_first_char(segment, 'x');
    let x = first_char(segment, 'x');
    assert(x == n) by {
        if x < n {
            assert(text::is_digit(experts[x]));
        }
    }
    assert(segment.take(n) =~= experts);
    assert(segment.skip(n + 1) =~= each + "b"@);
    assert(!is_decimal_literal(segment.drop_last())) by {
        assert(segment.drop_last()[n] == 'x');
        assert(!is_digit_or_dot(segment.drop_last()[n]));
    }
    lemma_plain_digits(experts);
    lemma_plain_digits(each);
    let plain = each + "b"@;
    assert(plain.last() == 'b');
    assert(plain.drop_last() =~= each);
    assert(text::lower(plain) =~= plain) by {
        assert forall|i: int| 0 <= i < plain.len() implies text::lower_char(plain[i]) == plain[i] by {
            if i < each.len() {
                assert(text::is_digit(each[i]));
            }
        }
    }
    assert(billions(plain) == Some(each));
    assert(is_float_literal(experts)) by {
        assert(text::is_digit(experts[0]));
        lemma_first_char(experts, 'e');
        let e = first_char(experts, 'e');
        if e < experts.len() {
            assert(text::is_digit(experts[e]));
        }
    }
    assert((seq![segment] + rest)[0] == segment);
    assert((seq![plain] + rest)[0] == plain);
}

proof fn lemma_plain_digits(s: Seq<char>)
    requires
        s.len() > 0,
        text::all_digits(s),
    ensures
        is_decimal_literal(s),
        digits_and_dots(s),
        count_char(s, '.') == 0,
{
    assert forall|i: int| 0 <= i < s.len() implies is_digit_or_dot(s[i]) by {
        assert(text::is_digit(s[i]));
    }
    assert(text::is_digit(s[0]));
    lemma_none_of(s, '.');
}

proof fn lemma_none_of(s: Seq<char>, c: char)
    requires
        forall|i: int| 0 <= i < s.len() ==> s[i] != c,
    ensures
        count_char(s, c) == 0,
    decreases s.len(),
{
    if s.len() > 0 {
        let rest = s.drop_last();
        assert forall|i: int| 0 <= i < rest.len() implies rest[i] != c by {
            assert(rest[i] == s[i]);
        }
        lemma_none_of(rest, c);
        assert(s[s.len() - 1] != c);
    }
}

/// The bytes of the units, in any case.
pub proof fn law_units(unit: Seq<char>)
    ensures
        text::lower(unit) == "b"@ ==> unit_bytes(unit) == Some(1nat),
        text::lower(unit) == "kb"@ ==> unit_bytes(unit) == Some(1_000nat),
        text::lower(unit) == "mb"@ ==> unit_bytes(unit) == Some(1_000_000nat),
        text::lower(unit) == "gb"@ ==> unit_bytes(unit) == Some(1_000_000_000nat),
        text::lower(unit) == "tb"@ ==> unit_bytes(unit) == Some(1_000_000_000_000nat),
{
    reveal_strlit("b");
    reveal_strlit("kb");
    reveal_strlit("mb");
    reveal_strlit("gb");
    reveal_strlit("tb");
    assert("b"@.len() == 1);
    assert("kb"@[0] == 'k' && "mb"@[0] == 'm' && "gb"@[0] == 'g' && "tb"@[0] == 't');
}

/// A size label of digits and a unit stands for that many units, with or without a
/// blank between them, as far as a number can hold it.
pub proof fn law_whole_size_labels(digits: Seq<char>, unit: Seq<char>)
    requires
        digits.len() > 0,
        text::all_digits(digits),
        unit_bytes(unit) is Some,
        text::digits_value(digits) <= u128::MAX,
    ensures
        ({
            let bytes = text::digits_value(digits) * unit_bytes(unit)->Some_0;
            &&& bytes <= u64::MAX ==> human_size(digits + unit) == Some(bytes as u64)
            &&& bytes > u64::MAX ==> human_size(digits + unit) is None
            &&& human_size(digits + " "@ + unit) == human_size(digits + unit)
        }),
{
    lemma_unit_is_plain(unit);
    let number = digits;
    lemma_plain_digits(digits);
    lemma_label(number, unit);
    lemma_first_char(number, '.');
    assert(first_char(number, '.') == number.len()) by {
        if first_char(number, '.') < number.len() {
            assert(text::is_digit(number[first_char(number, '.')]));
        }
    }
    assert(number.take(number.len() as int) =~= number);
    assert(text::is_digit(number[0]));
    assert(text::digits_value(Seq::<char>::empty()) == 0);
    assert(0nat * unit_bytes(unit)->Some_0 == 0) by (nonlinear_arith);
    assert(0nat / pow10(0) == 0);
}

/// A size label with a dot stands for the units before it and the share of one behind
/// it, rounded down.
pub proof fn law_broken_size_labels(digits: Seq<char>, behind: Seq<char>, unit: Seq<char>)
    requires
        digits.len() > 0,
        text::all_digits(digits),
        behind.len() == 1,
        text::all_digits(behind),
        unit_bytes(unit) is Some,
        text::digits_value(digits) <= u128::MAX,
    ensures
        ({
            let scale = unit_bytes(unit)->Some_0;
            let bytes = text::digits_value(digits) * scale + (behind[0] as int - '0' as int) * scale
                / 10;
            &&& bytes <= u64::MAX ==> human_size(digits + "."@ + behind + unit) == Some(
                bytes as u64,
            )
            &&& bytes > u64::MAX ==> human_size(digits + "."@ + behind + unit) is None
        }),
{
    lemma_unit_is_plain(unit);
    reveal_strlit(".");
    let scale = unit_bytes(unit)->Some_0;
    let number = digits + "."@ + behind;
    let n = digits.len() as int;
    assert(number[n] == '.');
    assert forall|i: int| 0 <= i < number.len() implies is_digit_or_dot(number[i]) by {
        if i < n {
            assert(text::is_digit(digits[i]));
        } else if i > n {
            assert(text::is_digit(behind[i - n - 1]));
        }
    }
    lemma_first_char(number, '.');
    let dot = first_char(number, '.');
    assert(dot == n) by {
        if dot < n {
            assert(text::is_digit(digits[dot]));
        }
    }
    assert(number.take(n) =~= digits);
    assert(number.skip(n + 1) =~= behind);
    assert(count_char(number, '.') == 1) by {
        assert(text::is_digit(behind[0]));
        let rest = number.drop_last();
        assert(number.last() == behind[0]);
        assert(rest =~= digits.push('.'));
        assert(rest.drop_last() =~= digits);
        lemma_plain_digits(digits);
        assert(count_char(rest, '.') == 1);
    }
    assert(number + unit =~= digits + "."@ + behind + unit);
    lemma_label(number, unit);
    assert(text::is_digit(digits[0]));
    let d = behind[0] as int - '0' as int;
    assert(text::is_digit(behind[0]));
    assert(behind.drop_last() =~= Seq::<char>::empty());
    assert(text::digits_value(Seq::<char>::empty()) == 0);
    assert(text::digits_value(behind) == d);
    assert(pow10(1) == 10) by {
        reveal_with_fuel(pow10, 2);
    }
    assert(d * scale <= 9 * 1_000_000_000_000) by (nonlinear_arith)
        requires
            0 <= d <= 9,
            0 <= scale <= 1_000_000_000_000,
    ;
    assert(d * scale >= 0) by (nonlinear_arith)
        requires
            0 <= d,
            0 <= scale,
    ;
}

proof fn lemma_unit_is_plain(unit: Seq<char>)
    requires
        unit_bytes(unit) is Some,
    ensures
        unit.len() > 0,
        unit_bytes(unit)->Some_0 <= 1_000_000_000_000,
        forall|i: int|
            0 <= i < unit.len() ==> !is_digit_or_dot(#[trigger] unit[i]) && !text::is_space(unit[i]),
{
    reveal_strlit("b");
    reveal_strlit("kb");
    reveal_strlit("mb");
    reveal_strlit("gb");
    reveal_strlit("tb");
    let u = text::lower(unit);
    assert(u.len() == unit.len());
    assert forall|i: int| 0 <= i < unit.len() implies !is_digit_or_dot(#[trigger] unit[i])
        && !text::is_space(unit[i]) by {
        assert(u[i] == text::lower_char(unit[i]));
        assert(i == 0 || i == 1);
    }
}

/// Blanks drop out of a text wherever they stand.
proof fn lemma_blanks_of_sum(a: Seq<char>, b: Seq<char>)
    ensures
        without_blanks(a + b) == without_blanks(a) + without_blanks(b),
    decreases b.len(),
{
    if b.len() == 0 {
        assert(a + b =~= a);
        assert(without_blanks(a) + without_blanks(b) =~= without_blanks(a));
    } else {
        lemma_blanks_of_sum(a, b.drop_last());
        assert((a + b).drop_last() =~= a + b.drop_last());
        assert((a + b).last() == b.last());
        let head = without_blanks(b.drop_last());
        assert((without_blanks(a) + head).push(b.last()) =~= without_blanks(a) + head.push(
            b.last(),
        ));
    }
}

proof fn lemma_no_blanks(s: Seq<char>)
    requires
        forall|i: int| 0 <= i < s.len() ==> s[i] != ' ',
    ensures
        without_blanks(s) == s,
    decreases s.len(),
{
    if s.len() > 0 {
        let rest = s.drop_last();
        assert forall|i: int| 0 <= i < rest.len() implies rest[i] != ' ' by {
            assert(rest[i] == s[i]);
        }
        lemma_no_blanks(rest);
        assert(s[s.len() - 1] != ' ');
        assert(rest.push(s.last()) =~= s);
    }
}

/// The parts of a label made of a number and a unit.
proof fn lemma_label(number: Seq<char>, unit: Seq<char>)
    requires
        number.len() > 0,
        digits_and_dots(number),
        unit.len() > 0,
        forall|i: int|
            0 <= i < unit.len() ==> !is_digit_or_dot(#[trigger] unit[i]) && !text::is_space(unit[i]),
    ensures
        without_blanks(text::trim(number + unit)) == number + unit,
        without_blanks(text::trim(number + " "@ + unit)) == number + unit,
        number_len(number + unit) == number.len(),
        (number + unit).take(number.len() as int) == number,
        (number + unit).skip(number.len() as int) == unit,
{
    reveal_strlit(" ");
    let tight = number + unit;
    let loose = number + " "@ + unit;
    assert forall|i: int| 0 <= i < number.len() implies !text::is_space(#[trigger] number[i]) by {
        assert(is_digit_or_dot(number[i]));
    }
    assert(!text::is_space(tight[0]) && !text::is_space(loose[0])) by {
        assert(tight[0] == number[0] && loose[0] == number[0]);
    }
    assert(!text::is_space(tight.last()) && !text::is_space(loose.last())) by {
        assert(tight.last() == unit[unit.len() - 1] && loose.last() == unit[unit.len() - 1]);
    }
    assert(text::trim(tight) == tight);
    assert(text::trim(loose) == loose);
    assert forall|i: int| 0 <= i < number.len() implies number[i] != ' ' by {
        assert(!text::is_space(number[i]));
    }
    assert forall|i: int| 0 <= i < unit.len() implies unit[i] != ' ' by {
        assert(!text::is_space(unit[i]));
    }
    lemma_no_blanks(number);
    lemma_no_blanks(unit);
    lemma_blanks_of_sum(number, unit);
    lemma_blanks_of_sum(number + " "@, unit);
    lemma_blanks_of_sum(number, " "@);
    assert(" "@.drop_last() =~= Seq::<char>::empty());
    assert(without_blanks(Seq::<char>::empty()) =~= Seq::<char>::empty());
    assert(" "@.last() == ' ');
    assert(without_blanks(" "@) =~= Seq::<char>::empty());
    assert(number + Seq::<char>::empty() =~= number);
    lemma_number_len(number, unit);
    assert(tight.take(number.len() as int) =~= number);
    assert(tight.skip(number.len() as int) =~= unit);
}

proof fn lemma_number_len(number: Seq<char>, unit: Seq<char>)
    requires
        digits_and_dots(number),
        unit.len() > 0,
        !is_digit_or_dot(unit[0]),
    ensures
        number_len(number + unit) == number.len(),
    decreases number.len(),
{
    if number.len() == 0 {
        assert((number + unit)[0] == unit[0]);
    } else {
        let rest = number.drop_first();
        assert(is_digit_or_dot(number[0]));
        assert forall|i: int| 0 <= i < rest.len() implies is_digit_or_dot(rest[i]) by {
            assert(is_digit_or_dot(number[i + 1]));
        }
        lemma_number_len(rest, unit);
        assert((number + unit).drop_first() =~= rest + unit);
    }
}

/// A tag is of a base model exactly when its name has `base` in it, in any case, and
/// for macOS only exactly when it has `nvfp4`.
pub proof fn law_what_a_tag_says(tag: Seq<char>, i: int)
    ensures
        text::occurs_at(text::lower(tag), "base"@, i) ==> !instruct_text(tag),
        (forall|j: int| !text::occurs_at(text::lower(tag), "base"@, j)) ==> instruct_text(tag),
        text::occurs_at(text::lower(tag), "nvfp4"@, i) ==> macos_only_text(tag),
        (forall|j: int| !text::occurs_at(text::lower(tag), "nvfp4"@, j)) ==> !macos_only_text(tag),
{
}

/// The size hint of a tag is that of its label.
pub proof fn law_hint_is_read_from_the_label(tag: TagInfo)
    ensures
        tag.approx_size matches Some(label) ==> tag.approx_bytes() == human_size(label@),
        tag.approx_size is None ==> tag.approx_bytes() is None,
{
}

/// Of one more GPU the count goes up exactly if it is visible.
pub proof fn law_visible_gpus_are_counted(gpus: Seq<GpuInfo>, gpu: GpuInfo)
    ensures
        visible_count(gpus.push(gpu)) == visible_count(gpus) + (if gpu.visible {
            1nat
        } else {
            0nat
        }),
        visible_count(Seq::empty()) == 0,
{
    assert(gpus.push(gpu).drop_last() =~= gpus);
}

/// The words for what a fit is measured against tell apart whether there are GPUs,
/// whether one is used, whether memory is shared, and which GPUs count.
pub proof fn law_fit_basis_in_words(hw: HardwareProfile)
    ensures
        ({
            let used = hw.vram_total > 0 && hw.vram_free > 0 && hw.selected_gpu_indices@.len() > 0;
            let words = hw.fit_basis_text();
            &&& !used && hw.gpus@.len() == 0 ==> words
                == "system RAM (CPU-only; no NVIDIA GPU detected)"@
            &&& !used && hw.gpus@.len() > 0 ==> words
                == "system RAM (no CUDA-visible NVIDIA GPU selected)"@
            &&& used && hw.unified_mem_total > 0 ==> words == "Apple Silicon unified memory"@
            &&& used && hw.unified_mem_total == 0 ==> match hw.gpu_fit_policy {
                GpuFitPolicy::Best => words
                    == "single CUDA-visible NVIDIA GPU with the most free VRAM"@,
                GpuFitPolicy::VisibleSum => words == "sum of CUDA-visible NVIDIA GPU free VRAM"@,
                GpuFitPolicy::AllSum => words
                    == "sum of all detected NVIDIA GPU free VRAM; ignores CUDA_VISIBLE_DEVICES"@,
            }
        }),
{
}

/// The words for a verdict tell each kind apart, and only that of a split names a
/// share.
pub proof fn law_verdict_in_words(fit: FitResult, share: Seq<char>, other: Seq<char>)
    ensures
        fit is FitsVram ==> fit.summary_text(share) == "fits GPU VRAM basis"@,
        fit is FitsWithSplit ==> fit.summary_text(share) == "fits with split ("@ + share
            + "% GPU)"@,
        fit is FitsRamOnly ==> fit.summary_text(share) == "fits RAM / CPU"@,
        fit is DoesNotFit ==> fit.summary_text(share) == "does not fit"@,
        fit is InsufficientDisk ==> fit.summary_text(share) == "estimated disk shortfall"@,
        fit is MacosOnly ==> fit.summary_text(share) == "macOS-only"@,
        !(fit is FitsWithSplit) ==> fit.summary_text(share) == fit.summary_text(other),
{
}

/// A decimal number: ASCII digits, at least one, with at most one dot among them.
pub proof fn law_what_is_a_decimal(s: Seq<char>)
    ensures
        is_decimal_literal(s) <==> {
            &&& exists|i: int| 0 <= i < s.len() && 48 <= (#[trigger] s[i]) as int <= 57
            &&& forall|i: int|
                0 <= i < s.len() ==> 48 <= (#[trigger] s[i]) as int <= 57 || s[i] == '.'
            &&& forall|i: int, j: int|
                0 <= i < j < s.len() ==> !(#[trigger] s[i] == '.' && #[trigger] s[j] == '.')
        },
{
    if is_decimal_literal(s) {
        let d = choose|i: int| 0 <= i < s.len() && text::is_digit(#[trigger] s[i]);
        assert(48 <= s[d] as int <= 57);
        assert forall|i: int| 0 <= i < s.len() implies 48 <= (#[trigger] s[i]) as int <= 57 || s[i]
            == '.' by {
            assert(is_digit_or_dot(s[i]));
        }
        assert forall|i: int, j: int| 0 <= i < j < s.len() implies !(#[trigger] s[i] == '.'
            && #[trigger] s[j] == '.') by {
            if s[i] == '.' && s[j] == '.' {
                lemma_two_dots(s, i, j);
            }
        }
    }
    if forall|i: int, j: int|
        0 <= i < j < s.len() ==> !(#[trigger] s[i] == '.' && #[trigger] s[j] == '.') {
        lemma_single_dot(s);
    }
    if exists|i: int| 0 <= i < s.len() && 48 <= (#[trigger] s[i]) as int <= 57 {
        let d = choose|i: int| 0 <= i < s.len() && 48 <= (#[trigger] s[i]) as int <= 57;
        assert(text::is_digit(s[d]));
    }
}

proof fn lemma_single_dot(s: Seq<char>)
    requires
        forall|i: int, j: int|
            0 <= i < j < s.len() ==> !(#[trigger] s[i] == '.' && #[trigger] s[j] == '.'),
    ensures
        count_char(s, '.') <= 1,
    decreases s.len(),
{
    if s.len() > 0 {
        let rest = s.drop_last();
        if s.last() == '.' {
            assert forall|i: int| 0 <= i < rest.len() implies rest[i] != '.' by {
                assert(rest[i] == s[i]);
                assert(s[s.len() - 1] == '.');
            }
            lemma_none_of(rest, '.');
        } else {
            assert forall|i: int, j: int| 0 <= i < j < rest.len() implies !(#[trigger] rest[i]
                == '.' && #[trigger] rest[j] == '.') by {
                assert(rest[i] == s[i] && rest[j] == s[j]);
            }
            lemma_single_dot(rest);
        }
    }
}

/// A number may have one sign, of either kind, in front.
pub proof fn law_a_number_may_have_a_sign(s: Seq<char>, sign: char)
    requires
        sign == '+' || sign == '-',
        s.len() > 0 ==> s[0] != '+' && s[0] != '-',
    ensures
        is_float_literal(seq![sign] + s) == is_float_literal(s),
{
    assert((seq![sign] + s).drop_first() =~= s);
}

/// Without an exponent a number is a decimal, an infinity or no number at all; in
/// front of an exponent it is a decimal, and the exponent is digits behind at most one
/// sign.
pub proof fn law_what_is_a_float(number: Seq<char>, exponent: Seq<char>)
    requires
        number.len() > 0 ==> number[0] != '+' && number[0] != '-',
        forall|i: int| 0 <= i < number.len() ==> number[i] != 'e',
    ensures
        is_float_literal(number) <==> is_decimal_literal(number) || number == "inf"@ || number
            == "infinity"@ || number == "nan"@,
        is_float_literal(number.push('e') + exponent) <==> is_decimal_literal(number) && {
            ||| exponent.len() > 0 && text::all_digits(exponent)
            ||| exponent.len() > 1 && (exponent[0] == '+' || exponent[0] == '-')
                && text::all_digits(exponent.skip(1))
        },
{
    reveal_strlit("inf");
    reveal_strlit("infinity");
    reveal_strlit("nan");
    let n = number.len() as int;
    lemma_first_char(number, 'e');
    assert(first_char(number, 'e') == n);
    let u = number.push('e') + exponent;
    assert(u[n] == 'e');
    lemma_first_char(u, 'e');
    let e = first_char(u, 'e');
    assert(e == n) by {
        if e < n {
            assert(u[e] == number[e]);
        }
    }
    if n > 0 {
        assert(u[0] == number[0]);
    }
    assert(unsigned_part(u) == u);
    assert(u.take(n) =~= number);
    assert(u.skip(n + 1) =~= exponent);
    assert("inf"@[0] == 'i' && "inf"@[1] == 'n' && "inf"@[2] == 'f');
    assert(u != "inf"@ && u != "nan"@ && u != "infinity"@) by {
        assert(forall|i: int| 0 <= i < 3 ==> "inf"@[i] != 'e');
        assert(forall|i: int| 0 <= i < 3 ==> "nan"@[i] != 'e');
        assert(forall|i: int| 0 <= i < 8 ==> "infinity"@[i] != 'e');
        assert(u.len() > n);
    }
    if exponent.len() > 0 {
        assert(exponent.drop_first() =~= exponent.skip(1));
        if exponent[0] == '+' || exponent[0] == '-' {
            assert(!text::is_digit(exponent[0]));
        }
    }
}

/// A part of a tag with an `x` settles the count: what follows it does not matter.
pub proof fn law_an_x_ends_the_search(part: Seq<char>, rest: Seq<Seq<char>>, i: int)
    requires
        0 <= i < part.len(),
        part[i] == 'x' || part[i] == 'X',
    ensures
        param_in(seq![part] + rest, 0) == param_in(seq![part], 0),
{
    let segment = text::lower(part);
    assert(segment[i] == 'x');
    lemma_first_char(segment, 'x');
    assert((seq![part] + rest)[0] == part);
    assert(seq![part][0] == part);
}

/// A number with two dots is no size.
pub proof fn law_two_dots_are_no_size(number: Seq<char>, unit: Seq<char>, i: int, j: int)
    requires
        unit_bytes(unit) is Some,
        digits_and_dots(number),
        0 <= i < j < number.len(),
        number[i] == '.',
        number[j] == '.',
    ensures
        human_size(number + unit) is None,
        human_size(number + " "@ + unit) is None,
{
    lemma_unit_is_plain(unit);
    lemma_label(number, unit);
    lemma_two_dots(number, i, j);
}

} // verus!
