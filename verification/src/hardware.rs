//! From raw readings of a machine to its profile.

use vstd::prelude::*;
use vstd::slice::slice_subrange;

use crate::error::{ErrorView, ResolverError};
use crate::text;
use crate::types::{self, GpuFitPolicy, GpuInfo, HardwareProfile};

verus! {

// ---- visible devices -------------------------------------------------------

/// What `CUDA_VISIBLE_DEVICES` lets a program see.
#[derive(Debug, Clone, PartialEq, Eq)]
pub enum CudaVisibility {
    All,
    NoDevices,
    /// The GPUs whose index, UUID or start of the UUID is listed.
    Tokens(Vec<String>),
}

pub enum VisibilityView {
    All,
    NoDevices,
    Tokens(Seq<Seq<char>>),
}

impl View for CudaVisibility {
    type V = VisibilityView;

    open spec fn view(&self) -> VisibilityView {
        match self {
            CudaVisibility::All => VisibilityView::All,
            CudaVisibility::NoDevices => VisibilityView::NoDevices,
            CudaVisibility::Tokens(tokens) => VisibilityView::Tokens(text::texts(tokens@)),
        }
    }
}

/// The meaning of a value of `CUDA_VISIBLE_DEVICES`: nothing, `-1`, `none` and
/// `NoDevFiles` hide every GPU; else the value lists those that are visible.
pub open spec fn visibility_of(value: Seq<char>) -> VisibilityView {
    let trimmed = text::trim(value);
    let tokens = text::nonempty(text::trim_all(text::split(trimmed, seq![','])));
    if trimmed.len() == 0 || trimmed == "-1"@ || text::lower(trimmed) == "none"@ || text::lower(
        trimmed,
    ) == "nodevfiles"@ || tokens.len() == 0 {
        VisibilityView::NoDevices
    } else {
        VisibilityView::Tokens(tokens)
    }
}

/// The meaning of the variable, which may be unset.
pub open spec fn visibility_setting(value: Option<Seq<char>>) -> VisibilityView {
    match value {
        Some(v) => visibility_of(v),
        None => VisibilityView::All,
    }
}

/// A UUID is meant by itself and by what its part after `GPU-` starts with.
pub open spec fn uuid_matches(uuid: Seq<char>, token: Seq<char>) -> bool {
    uuid == token || (text::has_prefix(uuid, "GPU-"@) && text::has_prefix(
        uuid.skip("GPU-"@.len() as int),
        token,
    ))
}

pub open spec fn token_matches(token: Seq<char>, index: u32, uuid: Option<Seq<char>>) -> bool {
    token == text::decimal(index as nat) || (uuid matches Some(u) && uuid_matches(u, token))
}

pub open spec fn any_matches(tokens: Seq<Seq<char>>, index: u32, uuid: Option<Seq<char>>) -> bool {
    exists|i: int| 0 <= i < tokens.len() && token_matches(#[trigger] tokens[i], index, uuid)
}

/// The text of an optional string slice.
pub open spec fn str_text(s: Option<&str>) -> Option<Seq<char>> {
    match s {
        Some(t) => Some(t@),
        None => None,
    }
}

impl VisibilityView {
    pub open spec fn covers(self, index: u32, uuid: Option<Seq<char>>) -> bool {
        match self {
            VisibilityView::All => true,
            VisibilityView::NoDevices => false,
            VisibilityView::Tokens(tokens) => any_matches(tokens, index, uuid),
        }
    }
}

pub fn uuid_matches_token(uuid: &str, token: &str) -> (r: bool)
    ensures
        r == uuid_matches(uuid@, token@),
{
    let uuid = text::chars_of(uuid);
    let token = text::chars_of(token);
    if text::same_chars(uuid.as_slice(), token.as_slice()) {
        return true;
    }
    let prefix = text::chars_of("GPU-");
    if !text::starts_with(uuid.as_slice(), prefix.as_slice()) {
        return false;
    }
    let short = slice_subrange(uuid.as_slice(), prefix.len(), uuid.len());
    assert(short@ =~= uuid@.skip(prefix@.len() as int));
    text::starts_with(short, token.as_slice())
}

fn any_token(tokens: &Vec<String>, index: u32, uuid: Option<&str>) -> (r: bool)
    ensures
        r == any_matches(text::texts(tokens@), index, str_text(uuid)),
{
    let number = text::decimal_text(index as u64);
    for i in 0..tokens.len()
        invariant
            number@ == text::decimal(index as nat),
            forall|j: int|
                0 <= j < i ==> !token_matches(
                    #[trigger] text::texts(tokens@)[j],
                    index,
                    str_text(uuid),
                ),
    {
        let by_uuid = match uuid {
            Some(u) => uuid_matches_token(u, tokens[i].as_str()),
            None => false,
        };
        if by_uuid || text::same_text(tokens[i].as_str(), number.as_str()) {
            assert(token_matches(text::texts(tokens@)[i as int], index, str_text(uuid)));
            return true;
        }
    }
    false
}

impl CudaVisibility {
    pub fn from_value(value: &str) -> (r: CudaVisibility)
        ensures
            r@ == visibility_of(value@),
    {
        let chars = text::chars_of(value);
        let trimmed = text::trimmed(chars.as_slice());
        let comma: [char; 1] = [','];
        assert(comma@ =~= seq![',']);
        let pieces = text::fields(trimmed, &comma);
        let mut tokens: Vec<String> = Vec::new();
        for i in 0..pieces.len()
            invariant
                text::texts(tokens@) =~= text::nonempty(text::buffers(pieces@).take(i as int)),
        {
            let ghost so_far = text::texts(tokens@);
            assert(text::buffers(pieces@).take(i + 1).drop_last() =~= text::buffers(pieces@).take(
                i as int,
            ));
            if pieces[i].len() > 0 {
                let token = text::string_of(pieces[i].as_slice());
                tokens.push(token);
                assert(text::texts(tokens@) =~= so_far.push(token@));
            }
        }
        assert(text::buffers(pieces@).take(pieces@.len() as int) =~= text::buffers(pieces@));
        assert(text::texts(tokens@).len() == tokens@.len());
        let lower = text::to_lower(trimmed);
        if trimmed.len() == 0 || text::same_chars(trimmed, text::chars_of("-1").as_slice())
            || text::same_chars(lower.as_slice(), text::chars_of("none").as_slice())
            || text::same_chars(lower.as_slice(), text::chars_of("nodevfiles").as_slice())
            || tokens.len() == 0 {
            CudaVisibility::NoDevices
        } else {
            CudaVisibility::Tokens(tokens)
        }
    }

    /// The meaning of the variable; where it is unset, everything is visible.
    pub fn from_setting(value: &Option<String>) -> (r: CudaVisibility)
        ensures
            r@ == visibility_setting(text::opt_text(*value)),
    {
        match value {
            Some(v) => CudaVisibility::from_value(v.as_str()),
            None => CudaVisibility::All,
        }
    }

    pub fn includes(&self, index: u32, uuid: Option<&str>) -> (r: bool)
        ensures
            r == self@.covers(index, str_text(uuid)),
    {
        match self {
            CudaVisibility::All => true,
            CudaVisibility::NoDevices => false,
            CudaVisibility::Tokens(tokens) => any_token(tokens, index, uuid),
        }
    }
}

// ---- the GPU inventory -----------------------------------------------------

/// A `GpuInfo` with its texts as character sequences.
pub struct GpuView {
    pub index: u32,
    pub uuid: Option<Seq<char>>,
    pub name: Seq<char>,
    pub vram_total: u64,
    pub vram_free: u64,
    pub visible: bool,
}

impl View for GpuInfo {
    type V = GpuView;

    open spec fn view(&self) -> GpuView {
        GpuView {
            index: self.index,
            uuid: text::opt_text(self.uuid),
            name: self.name@,
            vram_total: self.vram_total,
            vram_free: self.vram_free,
            visible: self.visible,
        }
    }
}

pub open spec fn gpu_views(gpus: Seq<GpuInfo>) -> Seq<GpuView> {
    Seq::new(gpus.len(), |i: int| gpus[i]@)
}

/// A UUID as `nvidia-smi` prints it; none where the field is empty or says that
/// UUIDs are not supported.
pub open spec fn uuid_of(value: Seq<char>) -> Option<Seq<char>> {
    let trimmed = text::trim(value);
    if trimmed.len() == 0 || text::lower(trimmed) == "[not supported]"@ {
        None
    } else {
        Some(trimmed)
    }
}

pub open spec fn mib(n: nat) -> u64 {
    types::saturate_u64((n * 1_048_576) as int)
}

/// A line of the inventory: index, UUID, name, total and free memory in MiB.
/// Lines of any other form say nothing.
pub open spec fn gpu_of(line: Seq<char>, visibility: VisibilityView) -> Option<GpuView> {
    let parts = text::trim_all(text::split(line, seq![',']));
    if parts.len() < 5 {
        None
    } else {
        match (
            text::unsigned(parts[0], u32::MAX as nat),
            text::unsigned(parts[3], u64::MAX as nat),
            text::unsigned(parts[4], u64::MAX as nat),
        ) {
            (Some(index), Some(total), Some(free)) => Some(
                GpuView {
                    index: index as u32,
                    uuid: uuid_of(parts[1]),
                    name: parts[2],
                    vram_total: mib(total),
                    vram_free: mib(free),
                    visible: visibility.covers(index as u32, uuid_of(parts[1])),
                },
            ),
            _ => None,
        }
    }
}

/// The GPUs that the lines describe, in order.
pub open spec fn gpus_of(lines: Seq<Seq<char>>, visibility: VisibilityView) -> Seq<GpuView>
    decreases lines.len(),
{
    if lines.len() == 0 {
        Seq::empty()
    } else {
        let head = gpus_of(lines.drop_last(), visibility);
        match gpu_of(lines.last(), visibility) {
            Some(gpu) => head.push(gpu),
            None => head,
        }
    }
}

fn normalize_uuid(value: &[char]) -> (r: Option<String>)
    ensures
        text::opt_text(r) == uuid_of(value@),
{
    let trimmed = text::trimmed(value);
    if trimmed.len() == 0 || text::same_chars(
        text::to_lower(trimmed).as_slice(),
        text::chars_of("[not supported]").as_slice(),
    ) {
        None
    } else {
        Some(text::string_of(trimmed))
    }
}

fn mib_to_bytes(n: u64) -> (r: u64)
    ensures
        r == mib(n as nat),
{
    let bytes: u128 = n as u128 * 1_048_576;
    if bytes > u64::MAX as u128 {
        u64::MAX
    } else {
        bytes as u64
    }
}

fn parse_gpu_line(line: &[char], visibility: &CudaVisibility) -> (r: Option<GpuInfo>)
    ensures
        match r {
            Some(gpu) => gpu_of(line@, visibility@) == Some(gpu@),
            None => gpu_of(line@, visibility@) is None,
        },
{
    let comma: [char; 1] = [','];
    assert(comma@ =~= seq![',']);
    let parts = text::fields(line, &comma);
    let ghost texts = text::buffers(parts@);
    assert(texts.len() == parts@.len());
    if parts.len() < 5 {
        return None;
    }
    assert(forall|i: int| 0 <= i < 5 ==> #[trigger] texts[i] == parts@[i]@);
    let index: u32 = match text::parse_unsigned(parts[0].as_slice(), u32::MAX as u128) {
        Some(n) => n as u32,
        None => {
            return None;
        },
    };
    let uuid = normalize_uuid(parts[1].as_slice());
    let name = text::string_of(parts[2].as_slice());
    let total_mib: u64 = match text::parse_unsigned(parts[3].as_slice(), u64::MAX as u128) {
        Some(n) => n as u64,
        None => {
            return None;
        },
    };
    let free_mib: u64 = match text::parse_unsigned(parts[4].as_slice(), u64::MAX as u128) {
        Some(n) => n as u64,
        None => {
            return None;
        },
    };
    let visible = match &uuid {
        Some(u) => visibility.includes(index, Some(u.as_str())),
        None => visibility.includes(index, None),
    };
    Some(
        GpuInfo {
            index,
            uuid,
            name,
            vram_total: mib_to_bytes(total_mib),
            vram_free: mib_to_bytes(free_mib),
            visible,
        },
    )
}

/// Reads what `nvidia-smi` prints for index, UUID, name, total and free memory,
/// as comma-separated values without header and units.
pub fn parse_nvidia_smi_csv_with_visibility(stdout: &str, visibility: &CudaVisibility) -> (r: Vec<
    GpuInfo,
>)
    ensures
        gpu_views(r@) == gpus_of(text::lines(stdout@), visibility@),
{
    let lines = text::lines_of(stdout);
    let ghost all = text::buffers(lines@);
    let mut gpus: Vec<GpuInfo> = Vec::new();
    for i in 0..lines.len()
        invariant
            all == text::buffers(lines@),
            gpu_views(gpus@) =~= gpus_of(all.take(i as int), visibility@),
    {
        let ghost so_far = gpu_views(gpus@);
        assert(all.take(i + 1).drop_last() =~= all.take(i as int));
        if let Some(gpu) = parse_gpu_line(lines[i].as_slice(), visibility) {
            gpus.push(gpu);
            assert(gpu_views(gpus@) =~= so_far.push(gpu@));
        }
    }
    assert(all.take(lines@.len() as int) =~= all);
    gpus
}

/// What `nvidia-smi` reports, read in the light of `CUDA_VISIBLE_DEVICES`.
pub fn parse_nvidia_smi_csv(stdout: &str, cuda_visible_devices: &Option<String>) -> (r: Vec<
    GpuInfo,
>)
    ensures
        gpu_views(r@) == gpus_of(
            text::lines(stdout@),
            visibility_setting(text::opt_text(*cuda_visible_devices)),
        ),
{
    let visibility = CudaVisibility::from_setting(cuda_visible_devices);
    parse_nvidia_smi_csv_with_visibility(stdout, &visibility)
}

pub open spec fn inventory(stdout: Option<Seq<char>>, cuda: Option<Seq<char>>) -> Seq<GpuView> {
    match stdout {
        Some(s) => gpus_of(text::lines(s), visibility_setting(cuda)),
        None => Seq::empty(),
    }
}

/// The GPUs of the machine. `stdout` is what `nvidia-smi` printed, if it ran and
/// succeeded.
pub fn detect_gpus(stdout: &Option<String>, cuda_visible_devices: &Option<String>) -> (r: Vec<
    GpuInfo,
>)
    ensures
        gpu_views(r@) == inventory(text::opt_text(*stdout), text::opt_text(*cuda_visible_devices)),
{
    match stdout {
        Some(s) => parse_nvidia_smi_csv(s.as_str(), cuda_visible_devices),
        None => {
            let none: Vec<GpuInfo> = Vec::new();
            assert(gpu_views(none@) =~= Seq::<GpuView>::empty());
            none
        },
    }
}

// ---- what a fit is measured against ------------------------------------------

/// Name, memory, free memory and indices of what was selected.
pub struct BasisView {
    pub name: Option<Seq<char>>,
    pub total: u64,
    pub free: u64,
    pub indices: Seq<u32>,
}

/// Less memory, or as much and a lower index.
pub open spec fn is_lesser(a: GpuView, b: GpuView) -> bool {
    a.vram_total < b.vram_total || (a.vram_total == b.vram_total && a.index < b.index)
}

/// The position of the visible GPU with the most memory, the highest index among
/// equals.
pub open spec fn best_visible(gpus: Seq<GpuView>) -> Option<int>
    decreases gpus.len(),
{
    if gpus.len() == 0 {
        None
    } else {
        let last = gpus.len() - 1;
        match best_visible(gpus.drop_last()) {
            Some(i) => if gpus[last].visible && !is_lesser(gpus[last], gpus[i]) {
                Some(last)
            } else {
                Some(i)
            },
            None => if gpus[last].visible {
                Some(last)
            } else {
                None
            },
        }
    }
}

pub open spec fn single_label(gpu: GpuView) -> Seq<char> {
    gpu.name + " (GPU "@ + text::decimal(gpu.index as nat) + ")"@
}

pub open spec fn no_basis() -> BasisView {
    BasisView { name: None, total: 0, free: 0, indices: Seq::empty() }
}

pub open spec fn best_basis(gpus: Seq<GpuView>) -> BasisView {
    match best_visible(gpus) {
        Some(i) => BasisView {
            name: Some(single_label(gpus[i])),
            total: gpus[i].vram_total,
            free: gpus[i].vram_total,
            indices: seq![gpus[i].index],
        },
        None => no_basis(),
    }
}

/// The GPUs that count: all, or only the visible ones.
pub open spec fn counted(gpus: Seq<GpuView>, include_hidden: bool) -> Seq<GpuView>
    decreases gpus.len(),
{
    if gpus.len() == 0 {
        gpus
    } else {
        let head = counted(gpus.drop_last(), include_hidden);
        if include_hidden || gpus.last().visible {
            head.push(gpus.last())
        } else {
            head
        }
    }
}

pub open spec fn memory_sum(gpus: Seq<GpuView>) -> nat
    decreases gpus.len(),
{
    if gpus.len() == 0 {
        0
    } else {
        memory_sum(gpus.drop_last()) + gpus.last().vram_total as nat
    }
}

pub open spec fn sum_label(gpus: Seq<GpuView>, include_hidden: bool) -> Seq<char> {
    if gpus.len() == 1 {
        single_label(gpus[0])
    } else if include_hidden {
        text::decimal(gpus.len()) + " detected NVIDIA GPUs (aggregate)"@
    } else {
        text::decimal(gpus.len()) + " CUDA-visible NVIDIA GPUs (aggregate)"@
    }
}

pub open spec fn sum_basis(gpus: Seq<GpuView>, include_hidden: bool) -> BasisView {
    let selected = counted(gpus, include_hidden);
    if selected.len() == 0 {
        no_basis()
    } else {
        BasisView {
            name: Some(sum_label(selected, include_hidden)),
            total: types::saturate_u64(memory_sum(selected) as int),
            free: types::saturate_u64(memory_sum(selected) as int),
            indices: Seq::new(selected.len(), |i: int| selected[i].index),
        }
    }
}

pub open spec fn gpu_basis(gpus: Seq<GpuView>, policy: GpuFitPolicy) -> BasisView {
    match policy {
        GpuFitPolicy::Best => best_basis(gpus),
        GpuFitPolicy::VisibleSum => sum_basis(gpus, false),
        GpuFitPolicy::AllSum => sum_basis(gpus, true),
    }
}

pub open spec fn basis_view(b: (Option<String>, u64, u64, Vec<u32>)) -> BasisView {
    BasisView { name: text::opt_text(b.0), total: b.1, free: b.2, indices: b.3@ }
}

fn gpu_label(gpu: &GpuInfo) -> (r: String)
    ensures
        r@ == single_label(gpu@),
{
    gpu.name.clone().concat(" (GPU ").concat(
        text::decimal_text(gpu.index as u64).as_str(),
    ).concat(")")
}

fn select_best_visible_gpu(gpus: &Vec<GpuInfo>) -> (r: (Option<String>, u64, u64, Vec<u32>))
    ensures
        basis_view(r) == best_basis(gpu_views(gpus@)),
{
    let ghost views = gpu_views(gpus@);
    let mut best: Option<usize> = None;
    for i in 0..gpus.len()
        invariant
            views == gpu_views(gpus@),
            match best {
                Some(b) => b < i && best_visible(views.take(i as int)) == Some(b as int),
                None => best_visible(views.take(i as int)) is None,
            },
    {
        assert(views.take(i + 1).drop_last() =~= views.take(i as int));
        let gpu = &gpus[i];
        if gpu.visible {
            let better = match best {
                Some(b) => !(gpu.vram_total < gpus[b].vram_total || (gpu.vram_total
                    == gpus[b].vram_total && gpu.index < gpus[b].index)),
                None => true,
            };
            if better {
                best = Some(i);
            }
        }
    }
    assert(views.take(gpus@.len() as int) =~= views);
    match best {
        Some(b) => {
            let mut indices: Vec<u32> = Vec::new();
            indices.push(gpus[b].index);
            (Some(gpu_label(&gpus[b])), gpus[b].vram_total, gpus[b].vram_total, indices)
        },
        None => (None, 0, 0, Vec::new()),
    }
}

fn select_sum(gpus: &Vec<GpuInfo>, include_hidden: bool) -> (r: (
    Option<String>,
    u64,
    u64,
    Vec<u32>,
))
    ensures
        basis_view(r) == sum_basis(gpu_views(gpus@), include_hidden),
{
    let ghost views = gpu_views(gpus@);
    let ghost mut selected: Seq<GpuView> = Seq::empty();
    let mut total: u64 = 0;
    let mut indices: Vec<u32> = Vec::new();
    let mut first: Option<usize> = None;
    for i in 0..gpus.len()
        invariant
            views == gpu_views(gpus@),
            selected == counted(views.take(i as int), include_hidden),
            total == types::saturate_u64(memory_sum(selected) as int),
            indices@ =~= Seq::new(selected.len(), |j: int| selected[j].index),
            match first {
                Some(f) => f < i && selected.len() > 0 && selected[0] == views[f as int],
                None => selected.len() == 0,
            },
    {
        assert(views.take(i + 1).drop_last() =~= views.take(i as int));
        let gpu = &gpus[i];
        if include_hidden || gpu.visible {
            proof {
                let before = selected;
                selected = selected.push(gpu@);
                assert(selected.drop_last() =~= before);
            }
            total = total.saturating_add(gpu.vram_total);
            indices.push(gpu.index);
            if first.is_none() {
                first = Some(i);
            }
        }
    }
    assert(views.take(gpus@.len() as int) =~= views);
    match first {
        None => (None, 0, 0, Vec::new()),
        Some(f) => {
            let count = text::decimal_text(indices.len() as u64);
            let label = if indices.len() == 1 {
                gpu_label(&gpus[f])
            } else if include_hidden {
                count.concat(" detected NVIDIA GPUs (aggregate)")
            } else {
                count.concat(" CUDA-visible NVIDIA GPUs (aggregate)")
            };
            (Some(label), total, total, indices)
        },
    }
}

/// What a fit is measured against: name, memory, the same memory again as the
/// free part (one model runs at a time), and the indices of the GPUs.
pub fn select_gpu_fit_basis(gpus: &Vec<GpuInfo>, policy: GpuFitPolicy) -> (r: (
    Option<String>,
    u64,
    u64,
    Vec<u32>,
))
    ensures
        basis_view(r) == gpu_basis(gpu_views(gpus@), policy),
{
    match policy {
        GpuFitPolicy::Best => select_best_visible_gpu(gpus),
        GpuFitPolicy::VisibleSum => select_sum(gpus, false),
        GpuFitPolicy::AllSum => select_sum(gpus, true),
    }
}

pub open spec fn unified_basis(total: u64) -> BasisView {
    BasisView {
        name: Some("Apple Silicon (Unified)"@),
        total,
        free: total,
        indices: seq![0u32],
    }
}

/// The basis on Apple Silicon: the memory that CPU and GPU share.
pub fn select_unified_fit_basis(total: u64) -> (r: (Option<String>, u64, u64, Vec<u32>))
    ensures
        basis_view(r) == unified_basis(total),
{
    let mut indices: Vec<u32> = Vec::new();
    indices.push(0);
    (Some("Apple Silicon (Unified)".to_string()), total, total, indices)
}

// ---- memory ----------------------------------------------------------------

/// The second word of a line, read as a number.
pub open spec fn second_number(line: Seq<char>) -> Option<nat> {
    let words = text::words(line);
    if words.len() < 2 {
        None
    } else {
        text::unsigned(words[1], u64::MAX as nat)
    }
}

/// The number of kilobytes on a line of `/proc/meminfo`.
pub fn parse_meminfo_kb(line: &str) -> (r: Option<u64>)
    ensures
        match r {
            Some(n) => second_number(line@) == Some(n as nat),
            None => second_number(line@) is None,
        },
{
    let words = text::words_of(line);
    assert(text::buffers(words@).len() == words@.len());
    if words.len() < 2 {
        return None;
    }
    assert(text::buffers(words@)[1] == words@[1]@);
    match text::parse_unsigned(words[1].as_slice(), u64::MAX as u128) {
        Some(n) => Some(n as u64),
        None => None,
    }
}

/// The number on the last line that starts with `key`.
pub open spec fn last_entry(lines: Seq<Seq<char>>, key: Seq<char>) -> Option<nat>
    decreases lines.len(),
{
    if lines.len() == 0 {
        None
    } else if text::has_prefix(lines.last(), key) {
        second_number(lines.last())
    } else {
        last_entry(lines.drop_last(), key)
    }
}

pub open spec fn kib(n: nat) -> u64 {
    types::saturate_u64((n * 1024) as int)
}

/// Total and available memory as `/proc/meminfo` gives them.
pub open spec fn meminfo_ram(contents: Seq<char>) -> Result<(u64, u64), ErrorView> {
    let lines = text::lines(contents);
    match (last_entry(lines, "MemTotal:"@), last_entry(lines, "MemAvailable:"@)) {
        (None, _) => Err(ErrorView::RamDetection("MemTotal not found"@)),
        (_, None) => Err(ErrorView::RamDetection("MemAvailable not found"@)),
        (Some(total), Some(available)) => Ok((kib(total), kib(available))),
    }
}

pub open spec fn as_nat(n: Option<u64>) -> Option<nat> {
    match n {
        Some(x) => Some(x as nat),
        None => None,
    }
}

fn kib_to_bytes(n: u64) -> (r: u64)
    ensures
        r == kib(n as nat),
{
    let bytes: u128 = n as u128 * 1024;
    if bytes > u64::MAX as u128 {
        u64::MAX
    } else {
        bytes as u64
    }
}

fn parse_meminfo(contents: &str) -> (r: Result<(u64, u64), ResolverError>)
    ensures
        match meminfo_ram(contents@) {
            Ok(sizes) => r == Ok::<_, ResolverError>(sizes),
            Err(error) => r matches Err(e) && e@ == error,
        },
{
    let lines = text::lines_of(contents);
    let ghost all = text::buffers(lines@);
    let total_key = text::chars_of("MemTotal:");
    let available_key = text::chars_of("MemAvailable:");
    let mut total: Option<u64> = None;
    let mut available: Option<u64> = None;
    for i in 0..lines.len()
        invariant
            all == text::buffers(lines@),
            total_key@ == "MemTotal:"@,
            available_key@ == "MemAvailable:"@,
            as_nat(total) == last_entry(all.take(i as int), "MemTotal:"@),
            as_nat(available) == last_entry(all.take(i as int), "MemAvailable:"@),
    {
        assert(all.take(i + 1).drop_last() =~= all.take(i as int));
        let line = lines[i].as_slice();
        assert(all[i as int] == line@);
        if text::starts_with(line, total_key.as_slice()) {
            proof {
                reveal_strlit("MemTotal:");
                reveal_strlit("MemAvailable:");
                assert(total_key@[3] != available_key@[3]);
                assert(line@.take(total_key@.len() as int)[3] == line@[3]);
                if text::has_prefix(line@, "MemAvailable:"@) {
                    assert(line@.take(available_key@.len() as int)[3] == line@[3]);
                }
            }
            total = parse_meminfo_kb(text::string_of(line).as_str());
        } else if text::starts_with(line, available_key.as_slice()) {
            available = parse_meminfo_kb(text::string_of(line).as_str());
        }
    }
    assert(all.take(lines@.len() as int) =~= all);
    match (total, available) {
        (None, _) => Err(ResolverError::RamDetection("MemTotal not found".to_string())),
        (_, None) => Err(ResolverError::RamDetection("MemAvailable not found".to_string())),
        (Some(total), Some(available)) => Ok((kib_to_bytes(total), kib_to_bytes(available))),
    }
}

/// What the operating system said of its memory.
#[derive(Debug, Clone, PartialEq, Eq)]
pub enum RamReading {
    /// Linux: the contents of `/proc/meminfo`.
    Meminfo(String),
    /// Linux: why `/proc/meminfo` could not be read.
    MeminfoUnreadable(String),
    /// macOS: `hw.memsize`, and the available part.
    Darwin { memsize: Option<u64>, available: Option<u64> },
    /// Any other system.
    Unsupported,
}

/// Total and available memory.
pub open spec fn ram_of(reading: RamReading) -> Result<(u64, u64), ErrorView> {
    match reading {
        RamReading::Meminfo(contents) => meminfo_ram(contents@),
        RamReading::MeminfoUnreadable(why) => Err(ErrorView::RamDetection(why@)),
        RamReading::Darwin { memsize: Some(total), available } => Ok(
            (
                total,
                match available {
                    Some(n) => n,
                    None => 0,
                },
            ),
        ),
        RamReading::Darwin { memsize: None, .. } => Err(
            ErrorView::RamDetection("hw.memsize unavailable"@),
        ),
        RamReading::Unsupported => Err(
            ErrorView::RamDetection("RAM detection is not implemented on this platform"@),
        ),
    }
}

pub fn detect_ram(reading: &RamReading) -> (r: Result<(u64, u64), ResolverError>)
    ensures
        match ram_of(*reading) {
            Ok(sizes) => r == Ok::<_, ResolverError>(sizes),
            Err(error) => r matches Err(e) && e@ == error,
        },
{
    match reading {
        RamReading::Meminfo(contents) => parse_meminfo(contents.as_str()),
        RamReading::MeminfoUnreadable(why) => Err(ResolverError::RamDetection(why.clone())),
        RamReading::Darwin { memsize: Some(total), available } => {
            let free: u64 = match available {
                Some(n) => *n,
                None => 0,
            };
            Ok((*total, free))
        },
        RamReading::Darwin { memsize: None, .. } => {
            Err(ResolverError::RamDetection("hw.memsize unavailable".to_string()))
        },
        RamReading::Unsupported => {
            Err(
                ResolverError::RamDetection(
                    "RAM detection is not implemented on this platform".to_string(),
                ),
            )
        },
    }
}

/// The memory that macOS can still give out: all but the wired pages and those
/// that the compressor holds. None where the page size, the total or the page
/// counts could not be read.
pub open spec fn darwin_available(
    page_size: i64,
    memsize: Option<u64>,
    pages: Option<(u32, u32)>,
) -> Option<u64> {
    match (memsize, pages) {
        (Some(total), Some((wired, compressed))) if page_size > 0 => {
            let taken = (wired + compressed) * page_size;
            Some(
                if taken < total {
                    (total - taken) as u64
                } else {
                    0
                },
            )
        },
        _ => None,
    }
}

pub fn darwin_free_ram_bytes(
    page_size: i64,
    memsize: Option<u64>,
    pages: Option<(u32, u32)>,
) -> (r: Option<u64>)
    ensures
        r == darwin_available(page_size, memsize, pages),
{
    if page_size <= 0 {
        return None;
    }
    match (memsize, pages) {
        (Some(total), Some((wired, compressed))) => {
            let unavailable_pages: u64 = wired as u64 + compressed as u64;
            assert(unavailable_pages * page_size <= 0x1_ffff_ffff * i64::MAX) by (nonlinear_arith)
                requires
                    unavailable_pages <= 0x1_ffff_ffff,
                    0 < page_size <= i64::MAX,
            ;
            assert(unavailable_pages * page_size >= 0) by (nonlinear_arith)
                requires
                    0 <= unavailable_pages,
                    0 < page_size,
            ;
            let unavailable_bytes: u128 = unavailable_pages as u128 * page_size as u128;
            if unavailable_bytes < total as u128 {
                Some((total as u128 - unavailable_bytes) as u64)
            } else {
                Some(0)
            }
        },
        _ => None,
    }
}

/// The shared memory of Apple Silicon, which `hw.optional.arm64` tells apart.
/// None on any other machine.
pub fn detect_unified_mem(arm64: Option<u64>, memsize: Option<u64>) -> (r: Option<u64>)
    ensures
        r == (if arm64 == Some(1u64) {
            memsize
        } else {
            None
        }),
{
    match arm64 {
        Some(1) => memsize,
        _ => None,
    }
}

// ---- disk ------------------------------------------------------------------

/// What was found out of the file system that holds a path.
#[derive(Debug, Clone, PartialEq, Eq)]
pub enum DiskReading {
    /// Neither the path nor any of its parents exists.
    NoAncestor,
    /// The path cannot be handed to the operating system.
    BadPath(String),
    /// `statvfs` failed on the given path.
    StatFailed(String),
    /// The blocks that are free for users, and the size of a block.
    Space { blocks: u64, block_size: u64 },
}

pub open spec fn disk_of(path: Seq<char>, reading: DiskReading) -> Result<u64, ErrorView> {
    match reading {
        DiskReading::NoAncestor => Err(
            ErrorView::DiskDetection("no existing ancestor for "@ + path),
        ),
        DiskReading::BadPath(why) => Err(ErrorView::DiskDetection(why@)),
        DiskReading::StatFailed(at) => Err(ErrorView::DiskDetection("statvfs failed on "@ + at@)),
        DiskReading::Space { blocks, block_size } => Ok(types::saturate_u64(blocks * block_size)),
    }
}

/// The bytes that are free for models under `path`.
pub fn detect_disk(path: &str, reading: &DiskReading) -> (r: Result<u64, ResolverError>)
    ensures
        match disk_of(path@, *reading) {
            Ok(bytes) => r == Ok::<_, ResolverError>(bytes),
            Err(error) => r matches Err(e) && e@ == error,
        },
{
    match reading {
        DiskReading::NoAncestor => {
            Err(
                ResolverError::DiskDetection(
                    "no existing ancestor for ".to_string().concat(path),
                ),
            )
        },
        DiskReading::BadPath(why) => Err(ResolverError::DiskDetection(why.clone())),
        DiskReading::StatFailed(at) => {
            Err(
                ResolverError::DiskDetection(
                    "statvfs failed on ".to_string().concat(at.as_str()),
                ),
            )
        },
        DiskReading::Space { blocks, block_size } => {
            assert(*blocks * *block_size <= u64::MAX * u64::MAX) by (nonlinear_arith)
                requires
                    *blocks <= u64::MAX,
                    *block_size <= u64::MAX,
            ;
            let bytes: u128 = *blocks as u128 * *block_size as u128;
            Ok(
                if bytes > u64::MAX as u128 {
                    u64::MAX
                } else {
                    bytes as u64
                },
            )
        },
    }
}

/// The position of the first that exists among a path and its parents, innermost
/// first. Each comes with whether it exists.
pub fn existing_ancestor(ancestors: &Vec<(String, bool)>) -> (r: Option<usize>)
    ensures
        match r {
            Some(i) => i < ancestors@.len() && ancestors@[i as int].1 && forall|j: int|
                0 <= j < i ==> !(#[trigger] ancestors@[j]).1,
            None => forall|j: int| 0 <= j < ancestors@.len() ==> !(#[trigger] ancestors@[j]).1,
        },
{
    for i in 0..ancestors.len()
        invariant
            forall|j: int| 0 <= j < i ==> !(#[trigger] ancestors@[j]).1,
    {
        if ancestors[i].1 {
            return Some(i);
        }
    }
    None
}

/// A path with one more component.
pub open spec fn joined(path: Seq<char>, part: Seq<char>) -> Seq<char> {
    if path.len() == 0 || path.last() == '/' {
        path + part
    } else {
        path + "/"@ + part
    }
}

fn join_path(path: &str, part: &str) -> (r: String)
    ensures
        r@ == joined(path@, part@),
{
    let chars = text::chars_of(path);
    if chars.len() == 0 || chars[chars.len() - 1] == '/' {
        path.to_string().concat(part)
    } else {
        path.to_string().concat("/").concat(part)
    }
}

/// Where Ollama keeps its models: as `OLLAMA_MODELS` says, else below the home
/// directory, else in `/tmp`.
pub fn default_models_dir(ollama_models: &Option<String>, home: &Option<String>) -> (r: String)
    ensures
        r@ == (match (*ollama_models, *home) {
            (Some(dir), _) => dir@,
            (None, Some(home)) => joined(joined(home@, ".ollama"@), "models"@),
            (None, None) => "/tmp"@,
        }),
{
    match (ollama_models, home) {
        (Some(dir), _) => dir.clone(),
        (None, Some(home)) => {
            join_path(join_path(home.as_str(), ".ollama").as_str(), "models")
        },
        (None, None) => "/tmp".to_string(),
    }
}

// ---- the profile -----------------------------------------------------------

/// All that was read of a machine.
#[derive(Debug, Clone, PartialEq, Eq)]
pub struct Readings {
    pub models_dir: String,
    /// The size of the memory that CPU and GPU share, if they do.
    pub unified_mem: Option<u64>,
    /// What `nvidia-smi` printed, if it ran and succeeded.
    pub nvidia_smi: Option<String>,
    pub cuda_visible_devices: Option<String>,
    pub ram: RamReading,
    pub disk: DiskReading,
}

/// A `HardwareProfile` with its texts as character sequences.
pub struct ProfileView {
    pub gpu_name: Option<Seq<char>>,
    pub vram_total: u64,
    pub vram_free: u64,
    pub ram_total: u64,
    pub ram_available: u64,
    pub disk_free: u64,
    pub models_dir: Seq<char>,
    pub gpus: Seq<GpuView>,
    pub selected_gpu_indices: Seq<u32>,
    pub cuda_visible_devices: Option<Seq<char>>,
    pub gpu_fit_policy: GpuFitPolicy,
    pub unified_mem_total: u64,
}

impl View for HardwareProfile {
    type V = ProfileView;

    open spec fn view(&self) -> ProfileView {
        ProfileView {
            gpu_name: text::opt_text(self.gpu_name),
            vram_total: self.vram_total,
            vram_free: self.vram_free,
            ram_total: self.ram_total,
            ram_available: self.ram_available,
            disk_free: self.disk_free,
            models_dir: self.models_dir@,
            gpus: gpu_views(self.gpus@),
            selected_gpu_indices: self.selected_gpu_indices@,
            cuda_visible_devices: text::opt_text(self.cuda_visible_devices),
            gpu_fit_policy: self.gpu_fit_policy,
            unified_mem_total: self.unified_mem_total,
        }
    }
}

/// What the fit is measured against on the machine that was read.
pub open spec fn basis_of(readings: Readings, policy: GpuFitPolicy) -> BasisView {
    match readings.unified_mem {
        Some(total) => unified_basis(total),
        None => gpu_basis(
            inventory(
                text::opt_text(readings.nvidia_smi),
                text::opt_text(readings.cuda_visible_devices),
            ),
            policy,
        ),
    }
}

/// The profile that follows from the readings; where both memory and disk are
/// unknown, the memory is reported.
pub open spec fn profile_of(readings: Readings, policy: GpuFitPolicy) -> Result<
    ProfileView,
    ErrorView,
> {
    let basis = basis_of(readings, policy);
    match (ram_of(readings.ram), disk_of(readings.models_dir@, readings.disk)) {
        (Err(e), _) => Err(e),
        (Ok(_), Err(e)) => Err(e),
        (Ok((ram_total, ram_available)), Ok(disk_free)) => Ok(
            ProfileView {
                gpu_name: basis.name,
                vram_total: basis.total,
                vram_free: basis.free,
                ram_total,
                ram_available,
                disk_free,
                models_dir: readings.models_dir@,
                gpus: inventory(
                    text::opt_text(readings.nvidia_smi),
                    text::opt_text(readings.cuda_visible_devices),
                ),
                selected_gpu_indices: basis.indices,
                cuda_visible_devices: text::opt_text(readings.cuda_visible_devices),
                gpu_fit_policy: policy,
                unified_mem_total: match readings.unified_mem {
                    Some(total) => total,
                    None => 0,
                },
            },
        ),
    }
}

/// The profile of a machine, measured against its best visible GPU.
pub fn detect(readings: Readings) -> (r: Result<HardwareProfile, ResolverError>)
    ensures
        match profile_of(readings, GpuFitPolicy::Best) {
            Ok(profile) => r matches Ok(hw) && hw@ == profile,
            Err(error) => r matches Err(e) && e@ == error,
        },
{
    detect_with_policy(readings, GpuFitPolicy::Best)
}

/// The profile of a machine, measured as the policy says.
pub fn detect_with_policy(readings: Readings, gpu_fit_policy: GpuFitPolicy) -> (r: Result<
    HardwareProfile,
    ResolverError,
>)
    ensures
        match profile_of(readings, gpu_fit_policy) {
            Ok(profile) => r matches Ok(hw) && hw@ == profile,
            Err(error) => r matches Err(e) && e@ == error,
        },
{
    let gpus = detect_gpus(&readings.nvidia_smi, &readings.cuda_visible_devices);
    let (gpu_name, vram_total, vram_free, selected_gpu_indices) = match readings.unified_mem {
        Some(total) => select_unified_fit_basis(total),
        None => select_gpu_fit_basis(&gpus, gpu_fit_policy),
    };
    let (ram_total, ram_available) = match detect_ram(&readings.ram) {
        Ok(sizes) => sizes,
        Err(e) => {
            return Err(e);
        },
    };
    let disk_free: u64 = match detect_disk(readings.models_dir.as_str(), &readings.disk) {
        Ok(bytes) => bytes,
        Err(e) => {
            return Err(e);
        },
    };
    let unified_mem_total: u64 = match readings.unified_mem {
        Some(total) => total,
        None => 0,
    };
    Ok(
        HardwareProfile {
            gpu_name,
            vram_total,
            vram_free,
            ram_total,
            ram_available,
            disk_free,
            models_dir: readings.models_dir,
            gpus,
            selected_gpu_indices,
            cuda_visible_devices: readings.cuda_visible_devices,
            gpu_fit_policy,
            unified_mem_total,
        },
    )
}

// ---- laws ------------------------------------------------------------------

/// On every machine that was read the free memory of the basis is its whole
/// memory: one model runs at a time.
pub proof fn law_fit_basis_is_total_memory(readings: Readings, policy: GpuFitPolicy)
    requires
        profile_of(readings, policy) is Ok,
    ensures
        profile_of(readings, policy)->Ok_0.vram_free == profile_of(
            readings,
            policy,
        )->Ok_0.vram_total,
{
}

/// The best GPU is visible, and no visible GPU has more memory; one is chosen
/// whenever some GPU is visible.
pub proof fn law_best_gpu_has_most_memory(gpus: Seq<GpuView>, j: int)
    requires
        0 <= j < gpus.len(),
        gpus[j].visible,
    ensures
        best_visible(gpus) matches Some(i) && 0 <= i < gpus.len() && gpus[i].visible && !is_lesser(
            gpus[i],
            gpus[j],
        ),
    decreases gpus.len(),
{
    let rest = gpus.drop_last();
    if j < gpus.len() - 1 {
        law_best_gpu_has_most_memory(rest, j);
        assert(rest[j] == gpus[j]);
    } else if best_visible(rest) is Some {
        lemma_best_is_visible(rest);
    }
}

proof fn lemma_best_is_visible(gpus: Seq<GpuView>)
    ensures
        best_visible(gpus) matches Some(i) ==> 0 <= i < gpus.len() && gpus[i].visible,
    decreases gpus.len(),
{
    if gpus.len() > 0 {
        lemma_best_is_visible(gpus.drop_last());
    }
}

/// Hidden GPUs never count towards the best GPU or the visible sum.
pub proof fn law_hidden_gpus_do_not_count(gpus: Seq<GpuView>)
    requires
        forall|i: int| 0 <= i < gpus.len() ==> !(#[trigger] gpus[i]).visible,
    ensures
        gpu_basis(gpus, GpuFitPolicy::Best) == no_basis(),
        gpu_basis(gpus, GpuFitPolicy::VisibleSum) == no_basis(),
    decreases gpus.len(),
{
    if gpus.len() > 0 {
        let rest = gpus.drop_last();
        assert forall|i: int| 0 <= i < rest.len() implies !(#[trigger] rest[i]).visible by {
            assert(rest[i] == gpus[i]);
        }
        law_hidden_gpus_do_not_count(rest);
        assert(gpus.last() == gpus[gpus.len() - 1]);
    }
}

/// The visible sum never exceeds the sum of all GPUs.
pub proof fn law_visible_sum_is_part_of_all(gpus: Seq<GpuView>)
    ensures
        memory_sum(counted(gpus, false)) <= memory_sum(counted(gpus, true)),
        gpu_basis(gpus, GpuFitPolicy::VisibleSum).total <= gpu_basis(
            gpus,
            GpuFitPolicy::AllSum,
        ).total,
    decreases gpus.len(),
{
    lemma_counting_all(gpus);
    lemma_counting_visible(gpus);
    if gpus.len() > 0 {
        law_visible_sum_is_part_of_all(gpus.drop_last());
        let v = counted(gpus.drop_last(), false);
        let a = counted(gpus.drop_last(), true);
        assert(a.push(gpus.last()).drop_last() =~= a);
        assert(v.push(gpus.last()).drop_last() =~= v);
    }
}

proof fn lemma_counting_all(gpus: Seq<GpuView>)
    ensures
        counted(gpus, true) == gpus,
    decreases gpus.len(),
{
    if gpus.len() > 0 {
        lemma_counting_all(gpus.drop_last());
        assert(gpus.drop_last().push(gpus.last()) =~= gpus);
    }
}

proof fn lemma_counting_visible(gpus: Seq<GpuView>)
    ensures
        counted(gpus, false).len() <= gpus.len(),
    decreases gpus.len(),
{
    if gpus.len() > 0 {
        lemma_counting_visible(gpus.drop_last());
    }
}

/// The available memory of a Mac never exceeds the installed memory.
pub proof fn law_darwin_available_is_within_total(
    page_size: i64,
    memsize: Option<u64>,
    pages: Option<(u32, u32)>,
)
    ensures
        darwin_available(page_size, memsize, pages) matches Some(n) ==> memsize matches Some(total)
            && n <= total,
{
    if let (Some(total), Some((wired, compressed))) = (memsize, pages) {
        if page_size > 0 {
            assert((wired + compressed) * page_size >= 0) by (nonlinear_arith)
                requires
                    0 <= wired,
                    0 <= compressed,
                    0 < page_size,
            ;
        }
    }
}

/// No GPU, no basis.
pub proof fn law_no_gpu_gives_no_basis(policy: GpuFitPolicy)
    ensures
        gpu_basis(Seq::empty(), policy) == (BasisView {
            name: None,
            total: 0,
            free: 0,
            indices: Seq::empty(),
        }),
{
}

/// One more GPU adds exactly its memory to the sum, as far as a number can hold it,
/// and its index to the selection. To the sum of visible GPUs a hidden one adds
/// nothing at all.
pub proof fn law_one_more_gpu_adds_its_memory(gpus: Seq<GpuView>, gpu: GpuView, policy: GpuFitPolicy)
    requires
        policy is VisibleSum || policy is AllSum,
    ensures
        ({
            let before = gpu_basis(gpus, policy);
            let after = gpu_basis(gpus.push(gpu), policy);
            let sum = before.total + gpu.vram_total;
            &&& policy is AllSum || gpu.visible ==> {
                &&& sum <= u64::MAX ==> after.total == sum
                &&& sum > u64::MAX ==> after.total == u64::MAX
                &&& after.free == after.total
                &&& after.indices == before.indices.push(gpu.index)
                &&& after.name is Some
            }
            &&& policy is VisibleSum && !gpu.visible ==> after == before
        }),
{
    let longer = gpus.push(gpu);
    let include_hidden = policy is AllSum;
    assert(longer.drop_last() =~= gpus);
    let head = counted(gpus, include_hidden);
    if include_hidden || gpu.visible {
        assert(counted(longer, include_hidden) == head.push(gpu));
        assert(head.push(gpu).drop_last() =~= head);
        assert(gpu_basis(longer, policy).indices =~= gpu_basis(gpus, policy).indices.push(gpu.index));
    }
}

/// Where every GPU is visible, the sum of the visible ones is the sum of all, and
/// the same GPUs are selected.
pub proof fn law_visible_sum_is_all_where_nothing_is_hidden(gpus: Seq<GpuView>)
    requires
        forall|i: int| 0 <= i < gpus.len() ==> (#[trigger] gpus[i]).visible,
    ensures
        ({
            let visible = gpu_basis(gpus, GpuFitPolicy::VisibleSum);
            let all = gpu_basis(gpus, GpuFitPolicy::AllSum);
            &&& visible.total == all.total
            &&& visible.free == all.free
            &&& visible.indices == all.indices
            &&& all.indices.len() == gpus.len()
        }),
    decreases gpus.len(),
{
    if gpus.len() > 0 {
        let rest = gpus.drop_last();
        assert forall|i: int| 0 <= i < rest.len() implies (#[trigger] rest[i]).visible by {
            assert(rest[i] == gpus[i]);
        }
        law_visible_sum_is_all_where_nothing_is_hidden(rest);
        assert(gpus[gpus.len() - 1].visible);
        assert(rest.push(gpus.last()) =~= gpus);
        law_one_more_gpu_adds_its_memory(rest, gpus.last(), GpuFitPolicy::VisibleSum);
        law_one_more_gpu_adds_its_memory(rest, gpus.last(), GpuFitPolicy::AllSum);
    }
}

/// Under the policy for the best GPU the basis is one visible GPU: none that is
/// visible has more memory, and among those with as much it has the highest index.
pub proof fn law_best_basis_is_the_largest_visible_gpu(gpus: Seq<GpuView>, j: int) -> (i: int)
    requires
        0 <= j < gpus.len(),
        gpus[j].visible,
    ensures
        0 <= i < gpus.len(),
        gpus[i].visible,
        gpus[i].vram_total >= gpus[j].vram_total,
        gpus[i].vram_total == gpus[j].vram_total ==> gpus[i].index >= gpus[j].index,
        gpu_basis(gpus, GpuFitPolicy::Best).total == gpus[i].vram_total,
        gpu_basis(gpus, GpuFitPolicy::Best).free == gpus[i].vram_total,
        gpu_basis(gpus, GpuFitPolicy::Best).indices == seq![gpus[i].index],
        gpu_basis(gpus, GpuFitPolicy::Best).name == Some(
            gpus[i].name + " (GPU "@ + text::decimal(gpus[i].index as nat) + ")"@,
        ),
{
    law_best_gpu_has_most_memory(gpus, j);
    best_visible(gpus)->Some_0
}

/// A GPU that is alone is measured in the same way under every policy that counts
/// it, and under its own name.
pub proof fn law_one_gpu_is_its_own_sum(gpu: GpuView)
    requires
        gpu.visible,
    ensures
        gpu_basis(seq![gpu], GpuFitPolicy::VisibleSum) == gpu_basis(seq![gpu], GpuFitPolicy::Best),
        gpu_basis(seq![gpu], GpuFitPolicy::AllSum) == gpu_basis(seq![gpu], GpuFitPolicy::Best),
        gpu_basis(seq![gpu], GpuFitPolicy::Best).total == gpu.vram_total,
{
    let one = seq![gpu];
    assert(one.drop_last() =~= Seq::<GpuView>::empty());
    assert(one.last() == gpu);
    assert(counted(Seq::<GpuView>::empty(), true) =~= Seq::<GpuView>::empty());
    assert(counted(Seq::<GpuView>::empty(), false) =~= Seq::<GpuView>::empty());
    let picked = Seq::<GpuView>::empty().push(gpu);
    assert(counted(one, true) == picked && counted(one, false) == picked);
    assert(picked.drop_last() =~= Seq::<GpuView>::empty());
    assert(memory_sum(Seq::<GpuView>::empty()) == 0);
    assert(memory_sum(picked) == gpu.vram_total);
    assert(best_visible(Seq::<GpuView>::empty()) is None);
    assert(best_visible(one) == Some(0int));
    let b = gpu_basis(one, GpuFitPolicy::Best);
    assert(gpu_basis(one, GpuFitPolicy::VisibleSum).indices =~= b.indices);
    assert(gpu_basis(one, GpuFitPolicy::AllSum).indices =~= b.indices);
}

/// The profile of a machine holds what was read: the basis of its GPUs or its
/// shared memory, its memory, its disk and its settings.
pub proof fn law_profile_holds_what_was_read(readings: Readings, policy: GpuFitPolicy)
    requires
        profile_of(readings, policy) is Ok,
    ensures
        ({
            let p = profile_of(readings, policy)->Ok_0;
            &&& readings.unified_mem matches Some(shared) ==> p.vram_total == shared && p.vram_free
                == shared && p.unified_mem_total == shared && p.selected_gpu_indices == seq![0u32]
                && p.gpu_name == Some("Apple Silicon (Unified)"@)
            &&& readings.unified_mem is None ==> p.unified_mem_total == 0 && BasisView {
                name: p.gpu_name,
                total: p.vram_total,
                free: p.vram_free,
                indices: p.selected_gpu_indices,
            } == gpu_basis(p.gpus, policy)
            &&& p.gpu_fit_policy == policy
            &&& p.models_dir == readings.models_dir@
            &&& p.cuda_visible_devices == text::opt_text(readings.cuda_visible_devices)
            &&& readings.nvidia_smi is None ==> p.gpus.len() == 0
            &&& readings.nvidia_smi matches Some(printed) ==> p.gpus == gpus_of(
                text::lines(printed@),
                match readings.cuda_visible_devices {
                    Some(setting) => visibility_of(setting@),
                    None => VisibilityView::All,
                },
            )
            &&& ram_of(readings.ram) == Ok::<_, ErrorView>((p.ram_total, p.ram_available))
            &&& readings.disk matches DiskReading::Space { blocks, block_size } && (if blocks
                * block_size <= u64::MAX {
                p.disk_free == blocks * block_size
            } else {
                p.disk_free == u64::MAX
            })
        }),
{
}

/// A profile comes out exactly when memory and disk could be read.
pub proof fn law_when_there_is_a_profile(readings: Readings, policy: GpuFitPolicy)
    ensures
        profile_of(readings, policy) is Ok <==> ram_of(readings.ram) is Ok
            && readings.disk is Space,
        ram_of(readings.ram) matches Err(e) ==> profile_of(readings, policy) == Err::<
            ProfileView,
            _,
        >(e),
        profile_of(readings, policy) matches Err(e) ==> e is RamDetection || e is DiskDetection,
{
}

/// On macOS the installed memory is the total, and the available part is 0 where it
/// could not be read.
pub proof fn law_darwin_memory(memsize: Option<u64>, available: Option<u64>)
    ensures
        ({
            let r = ram_of(RamReading::Darwin { memsize, available });
            &&& memsize is None <==> r is Err
            &&& memsize matches Some(total) ==> (r matches Ok((t, a)) && t == total && (
            available matches Some(n) ==> a == n) && (available is None ==> a == 0))
        }),
{
}

/// Of the installed memory of a Mac exactly the wired and the compressed pages are
/// not available.
pub proof fn law_darwin_pages_are_taken(page_size: i64, total: u64, wired: u32, compressed: u32)
    requires
        page_size > 0,
    ensures
        darwin_available(page_size, Some(total), Some((wired, compressed))) matches Some(n) && ({
            let taken = wired * page_size + compressed * page_size;
            &&& taken <= total ==> n + taken == total
            &&& taken > total ==> n == 0
        }),
        darwin_available(page_size, None, Some((wired, compressed))) is None,
        darwin_available(page_size, Some(total), None) is None,
        darwin_available((-page_size) as i64, Some(total), Some((wired, compressed))) is None,
        darwin_available(0, Some(total), Some((wired, compressed))) is None,
{
    assert((wired + compressed) * page_size == wired * page_size + compressed * page_size)
        by (nonlinear_arith);
}

/// Memory is read from the last line that starts with its key: the number behind
/// the key, in units of 1024 bytes.
pub proof fn law_meminfo_is_read_by_line(contents: Seq<char>, i: int, j: int, t: nat, a: nat)
    requires
        ({
            let lines = text::lines(contents);
            &&& 0 <= i < lines.len()
            &&& 0 <= j < lines.len()
            &&& text::has_prefix(lines[i], "MemTotal:"@)
            &&& text::has_prefix(lines[j], "MemAvailable:"@)
            &&& forall|k: int| i < k < lines.len() ==> !text::has_prefix(#[trigger] lines[k], "MemTotal:"@)
            &&& forall|k: int|
                j < k < lines.len() ==> !text::has_prefix(#[trigger] lines[k], "MemAvailable:"@)
            &&& text::words(lines[i]).len() >= 2
            &&& text::words(lines[j]).len() >= 2
            &&& text::unsigned(text::words(lines[i])[1], u64::MAX as nat) == Some(t)
            &&& text::unsigned(text::words(lines[j])[1], u64::MAX as nat) == Some(a)
            &&& t * 1024 <= u64::MAX
            &&& a * 1024 <= u64::MAX
        }),
    ensures
        meminfo_ram(contents) == Ok::<_, ErrorView>(((t * 1024) as u64, (a * 1024) as u64)),
{
    lemma_last_entry(text::lines(contents), "MemTotal:"@, i);
    lemma_last_entry(text::lines(contents), "MemAvailable:"@, j);
}

proof fn lemma_last_entry(lines: Seq<Seq<char>>, key: Seq<char>, i: int)
    requires
        0 <= i < lines.len(),
        text::has_prefix(lines[i], key),
        forall|k: int| i < k < lines.len() ==> !text::has_prefix(#[trigger] lines[k], key),
    ensures
        last_entry(lines, key) == second_number(lines[i]),
    decreases lines.len(),
{
    if i < lines.len() - 1 {
        assert(!text::has_prefix(lines[lines.len() - 1], key));
        let rest = lines.drop_last();
        assert forall|k: int| i < k < rest.len() implies !text::has_prefix(#[trigger] rest[k], key) by {
            assert(rest[k] == lines[k]);
        }
        lemma_last_entry(rest, key, i);
    }
}

/// A line of the inventory with five fields or more gives a GPU: index, UUID, name,
/// then total and free memory in units of 1048576 bytes. A line whose numbers cannot
/// be read, or with fewer fields, gives none.
pub proof fn law_inventory_line(line: Seq<char>, visibility: VisibilityView)
    ensures
        ({
            let parts = text::split(line, seq![',']);
            let index = text::unsigned(text::trim(parts[0]), u32::MAX as nat);
            let total = text::unsigned(text::trim(parts[3]), u64::MAX as nat);
            let free = text::unsigned(text::trim(parts[4]), u64::MAX as nat);
            let readable = parts.len() >= 5 && index is Some && total is Some && free is Some;
            &&& gpu_of(line, visibility) is Some <==> readable
            &&& gpu_of(line, visibility) matches Some(gpu) ==> {
                &&& gpu.index == index->Some_0
                &&& gpu.name == text::trim(parts[2])
                &&& total->Some_0 * 1_048_576 <= u64::MAX ==> gpu.vram_total == total->Some_0
                    * 1_048_576
                &&& total->Some_0 * 1_048_576 > u64::MAX ==> gpu.vram_total == u64::MAX
                &&& free->Some_0 * 1_048_576 <= u64::MAX ==> gpu.vram_free == free->Some_0
                    * 1_048_576
                &&& gpu.uuid matches Some(uuid) ==> uuid == text::trim(parts[1]) && uuid.len() > 0
                &&& gpu.uuid is None ==> text::trim(parts[1]).len() == 0 || text::lower(
                    text::trim(parts[1]),
                ) == "[not supported]"@
                &&& gpu.visible <==> visibility.covers(gpu.index, gpu.uuid)
            }
        }),
{
    let parts = text::split(line, seq![',']);
    let trimmed = text::trim_all(parts);
    assert(trimmed.len() == parts.len());
    assert(parts.len() >= 5 ==> trimmed[0] == text::trim(parts[0]) && trimmed[1] == text::trim(
        parts[1],
    ) && trimmed[2] == text::trim(parts[2]) && trimmed[3] == text::trim(parts[3]) && trimmed[4]
        == text::trim(parts[4]));
    if parts.len() >= 5 {
        lemma_trim_twice(parts[1]);
    }
}

proof fn lemma_trim_twice(s: Seq<char>)
    ensures
        text::trim(text::trim(s)) == text::trim(s),
{
    text::law_trim_takes_only_the_ends(s);
    text::law_trim_takes_only_the_ends(text::trim(s));
    let t = text::trim(s);
    if t.len() > 0 {
        assert(text::trim_start(t) == t);
        assert(text::trim_end(t) == t);
    }
}

/// Each line that describes a GPU adds one behind those before it; any other line
/// adds nothing.
pub proof fn law_inventory_is_read_line_by_line(
    lines: Seq<Seq<char>>,
    line: Seq<char>,
    visibility: VisibilityView,
)
    ensures
        gpus_of(Seq::empty(), visibility).len() == 0,
        gpu_of(line, visibility) matches Some(gpu) ==> gpus_of(lines.push(line), visibility)
            == gpus_of(lines, visibility).push(gpu),
        gpu_of(line, visibility) is None ==> gpus_of(lines.push(line), visibility) == gpus_of(
            lines,
            visibility,
        ),
{
    assert(lines.push(line).drop_last() =~= lines);
}

/// An entry that stands for a GPU: its index in decimal, its UUID, or what its UUID
/// starts with behind `GPU-`.
pub open spec fn names_gpu(entry: Seq<char>, index: u32, uuid: Option<Seq<char>>) -> bool {
    let prefix = "GPU-"@;
    ||| entry == text::decimal(index as nat)
    ||| uuid == Some(entry)
    ||| uuid matches Some(u) && prefix.len() + entry.len() <= u.len() && u.subrange(
        0,
        prefix.len() as int,
    ) == prefix && u.subrange(prefix.len() as int, prefix.len() as int + entry.len()) == entry
}

/// A GPU is visible if the setting is missing, or if one of the entries between its
/// commas stands for the GPU; a setting of nothing, `-1`, `none` or `NoDevFiles`
/// hides every GPU.
pub proof fn law_which_gpus_are_visible(
    setting: Option<Seq<char>>,
    index: u32,
    uuid: Option<Seq<char>>,
)
    ensures
        setting is None ==> visibility_setting(setting).covers(index, uuid),
        setting matches Some(value) ==> ({
            let trimmed = text::trim(value);
            let entries = text::split(trimmed, seq![',']);
            let hides_all = trimmed.len() == 0 || trimmed == "-1"@ || text::lower(trimmed)
                == "none"@ || text::lower(trimmed) == "nodevfiles"@;
            visibility_setting(setting).covers(index, uuid) <==> !hides_all && exists|i: int|
                0 <= i < entries.len() && text::trim(#[trigger] entries[i]).len() > 0 && names_gpu(
                    text::trim(entries[i]),
                    index,
                    uuid,
                )
        }),
{
    if let Some(value) = setting {
        let trimmed = text::trim(value);
        let entries = text::split(trimmed, seq![',']);
        let all = text::trim_all(entries);
        let tokens = text::nonempty(all);
        assert forall|entry: Seq<char>| #[trigger] token_matches(entry, index, uuid) <==> names_gpu(
            entry,
            index,
            uuid,
        ) by {
            lemma_uuid_in_words(uuid, entry);
        }
        if any_matches(tokens, index, uuid) {
            let k = choose|k: int|
                0 <= k < tokens.len() && token_matches(#[trigger] tokens[k], index, uuid);
            let i = text::lemma_nonempty_comes_from(all, k);
            assert(all[i] == text::trim(entries[i]));
            assert(names_gpu(text::trim(entries[i]), index, uuid));
        }
        if exists|i: int|
            0 <= i < entries.len() && text::trim(#[trigger] entries[i]).len() > 0 && names_gpu(
                text::trim(entries[i]),
                index,
                uuid,
            ) {
            let i = choose|i: int|
                0 <= i < entries.len() && text::trim(#[trigger] entries[i]).len() > 0 && names_gpu(
                    text::trim(entries[i]),
                    index,
                    uuid,
                );
            assert(all[i] == text::trim(entries[i]));
            let k = text::lemma_nonempty_keeps(all, i);
            assert(token_matches(tokens[k], index, uuid));
        }
    }
}

proof fn lemma_uuid_in_words(uuid: Option<Seq<char>>, entry: Seq<char>)
    ensures
        uuid matches Some(u) ==> (uuid_matches(u, entry) <==> u == entry || ("GPU-"@.len()
            + entry.len() <= u.len() && u.subrange(0, "GPU-"@.len() as int) == "GPU-"@
            && u.subrange("GPU-"@.len() as int, "GPU-"@.len() as int + entry.len()) == entry)),
{
    if let Some(u) = uuid {
        let n = "GPU-"@.len() as int;
        if n + entry.len() <= u.len() {
            assert(u.skip(n).take(entry.len() as int) =~= u.subrange(n, n + entry.len()));
            assert(u.take(n) =~= u.subrange(0, n));
        }
    }
}

/// Several GPUs go under their number, and under whether all count or the visible
/// ones.
pub proof fn law_sums_are_named_by_their_number(gpus: Seq<GpuView>, policy: GpuFitPolicy)
    requires
        policy is VisibleSum || policy is AllSum,
        gpu_basis(gpus, policy).indices.len() > 1,
    ensures
        ({
            let basis = gpu_basis(gpus, policy);
            let n = text::decimal(basis.indices.len());
            &&& policy is AllSum ==> basis.name == Some(n + " detected NVIDIA GPUs (aggregate)"@)
            &&& policy is VisibleSum ==> basis.name == Some(
                n + " CUDA-visible NVIDIA GPUs (aggregate)"@,
            )
        }),
{
}

/// A path and a part are joined by exactly one slash, where the path has none at its
/// end; nothing comes before a part without a path.
pub proof fn law_paths_are_joined(path: Seq<char>, part: Seq<char>)
    ensures
        path.len() == 0 ==> joined(path, part) == part,
        joined(path.push('/'), part) == path.push('/') + part,
        path.len() > 0 && path.last() != '/' ==> joined(path, part) == path.push('/') + part,
{
    reveal_strlit("/");
    assert(path.len() == 0 ==> path + part =~= part);
    assert(path + "/"@ + part =~= path.push('/') + part);
}

/// Without a line for the memory, or for the available part, there is no reading; that
/// of the whole is missed first.
pub proof fn law_meminfo_needs_both_lines(contents: Seq<char>)
    ensures
        (forall|k: int|
            0 <= k < text::lines(contents).len() ==> !text::has_prefix(
                #[trigger] text::lines(contents)[k],
                "MemTotal:"@,
            )) ==> meminfo_ram(contents) == Err::<(u64, u64), _>(
            ErrorView::RamDetection("MemTotal not found"@),
        ),
        (forall|k: int|
            0 <= k < text::lines(contents).len() ==> !text::has_prefix(
                #[trigger] text::lines(contents)[k],
                "MemAvailable:"@,
            )) ==> meminfo_ram(contents) is Err,
{
    let lines = text::lines(contents);
    if forall|k: int| 0 <= k < lines.len() ==> !text::has_prefix(#[trigger] lines[k], "MemTotal:"@) {
        lemma_no_entry(lines, "MemTotal:"@);
    }
    if forall|k: int| 0 <= k < lines.len() ==> !text::has_prefix(#[trigger] lines[k], "MemAvailable:"@) {
        lemma_no_entry(lines, "MemAvailable:"@);
    }
}

proof fn lemma_no_entry(lines: Seq<Seq<char>>, key: Seq<char>)
    requires
        forall|k: int| 0 <= k < lines.len() ==> !text::has_prefix(#[trigger] lines[k], key),
    ensures
        last_entry(lines, key) is None,
    decreases lines.len(),
{
    if lines.len() > 0 {
        let rest = lines.drop_last();
        assert forall|k: int| 0 <= k < rest.len() implies !text::has_prefix(#[trigger] rest[k], key) by {
            assert(rest[k] == lines[k]);
        }
        assert(!text::has_prefix(lines[lines.len() - 1], key));
        lemma_no_entry(rest, key);
    }
}

/// The UUID of a GPU is its field without the blanks around it; a GPU has none where
/// nothing is left, or the words `[not supported]` with their letters in either case.
pub proof fn law_which_gpus_have_a_uuid(value: Seq<char>, other: Seq<char>)
    ensures
        uuid_of(value) matches Some(uuid) ==> uuid == text::trim(value) && uuid.len() > 0,
        uuid_of(value) is None <==> text::trim(value).len() == 0 || text::lower(text::trim(value))
            == "[not supported]"@,
        text::lower(text::trim(value)) == text::lower(text::trim(other)) ==> (uuid_of(value) is None
            <==> uuid_of(other) is None),
{
    if text::lower(text::trim(value)) == text::lower(text::trim(other)) {
        assert(text::lower(text::trim(value)).len() == text::trim(value).len());
        assert(text::lower(text::trim(other)).len() == text::trim(other).len());
    }
}

} // verus!
