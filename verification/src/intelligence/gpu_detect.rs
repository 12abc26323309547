//! Which language model suits this machine.

use vstd::prelude::*;
use crate::text::{chars_of, has_prefix, lines_of, nth_word, push_decimal, push_str, same, str_contains,
    str_starts_with, str_trimmed, string_of, trimmed_number};

verus! {

#[derive(Debug, Clone, Copy, PartialEq, Eq, Structural)]
pub enum GpuVendor {
    Nvidia,
    Amd,
    Intel,
    Unknown,
}

#[derive(Debug, Clone, Copy, PartialEq, Eq, Structural)]
pub struct GpuInfo {
    pub vendor: GpuVendor,
    /// Video memory in MiB, if it can be told.
    pub vram_mib: Option<u64>,
}

/// What the NVIDIA driver says.
#[derive(Debug)]
pub struct NvidiaProbe {
    /// Whether the first device node is there.
    pub present: bool,
    /// What the management tool printed, if it ran.
    pub memory_total: Option<String>,
}

/// What the kernel says of one entry of the graphics device list.
#[derive(Debug)]
pub struct DrmEntry {
    pub name: String,
    /// The vendor id; empty when it could not be read.
    pub vendor: String,
    /// Total video memory of an AMD card in bytes.
    pub amd_vram: Option<String>,
    /// Total local memory of an Intel card in bytes.
    pub intel_lmem: Option<String>,
}

/// A number that stands alone in a text.
pub open spec fn number_in(s: Option<String>) -> Option<u64> {
    match s {
        Some(t) => match crate::text::parse_number(crate::text::trim(t@), 10, u64::MAX as nat) {
            Some(n) => Some(n as u64),
            None => None,
        },
        None => None,
    }
}

/// Whether an entry is a card, and not one of its connectors or render nodes.
pub open spec fn is_card(e: DrmEntry) -> bool {
    crate::text::starts_with(e.name@, "card"@) && !crate::text::contains(e.name@, "-"@)
}

/// Whether an entry is a card of the vendor.
pub open spec fn card_of(e: DrmEntry, vendor: Seq<char>) -> bool {
    is_card(e) && crate::text::lowercase(crate::text::trim(e.vendor@)) == vendor
}

/// The position of the first card of the vendor, or the length.
pub open spec fn first_card(entries: Seq<DrmEntry>, vendor: Seq<char>, i: int) -> int
    decreases entries.len() - i,
{
    if i < 0 || i >= entries.len() {
        entries.len() as int
    } else if card_of(entries[i], vendor) {
        i
    } else {
        first_card(entries, vendor, i + 1)
    }
}

/// Bytes as MiB.
pub open spec fn mib(bytes: u64) -> u64 {
    bytes / 1024 / 1024
}

/// The NVIDIA card, if there is one.
pub open spec fn nvidia_of(p: NvidiaProbe) -> Option<GpuInfo> {
    if p.present {
        Some(GpuInfo { vendor: GpuVendor::Nvidia, vram_mib: number_in(p.memory_total) })
    } else {
        None
    }
}

/// The AMD card, if there is one.
pub open spec fn amd_of(entries: Seq<DrmEntry>) -> Option<GpuInfo> {
    let i = first_card(entries, "0x1002"@, 0);
    if i < entries.len() {
        Some(
            GpuInfo {
                vendor: GpuVendor::Amd,
                vram_mib: match number_in(entries[i].amd_vram) {
                    Some(b) => Some(mib(b)),
                    None => None,
                },
            },
        )
    } else {
        None
    }
}

/// The position of the first discrete Intel card, or the length. An Intel card
/// without local memory shares the system's: it is integrated.
pub open spec fn first_arc(entries: Seq<DrmEntry>, i: int) -> int
    decreases entries.len() - i,
{
    if i < 0 || i >= entries.len() {
        entries.len() as int
    } else if card_of(entries[i], "0x8086"@) && number_in(entries[i].intel_lmem) is Some
        && number_in(entries[i].intel_lmem)->0 > 0 {
        i
    } else {
        first_arc(entries, i + 1)
    }
}

/// The discrete Intel card, if there is one.
pub open spec fn intel_of(entries: Seq<DrmEntry>) -> Option<GpuInfo> {
    let i = first_arc(entries, 0);
    if i < entries.len() {
        Some(
            GpuInfo {
                vendor: GpuVendor::Intel,
                vram_mib: Some(mib(number_in(entries[i].intel_lmem)->0)),
            },
        )
    } else {
        None
    }
}

fn read_number(s: &Option<String>) -> (r: Option<u64>)
    ensures
        r == number_in(*s),
{
    match s {
        Some(t) => trimmed_number(t.as_str()),
        None => None,
    }
}

fn is_card_of(e: &DrmEntry, vendor: &str) -> (r: bool)
    ensures
        r == card_of(*e, vendor@),
{
    if !str_starts_with(e.name.as_str(), "card") || str_contains(e.name.as_str(), "-") {
        return false;
    }
    let v = str_trimmed(e.vendor.as_str()).as_str().to_lowercase();
    same(v.as_str(), vendor)
}

fn find_card(entries: &Vec<DrmEntry>, vendor: &str) -> (r: Option<usize>)
    ensures
        match r {
            Some(i) => i == first_card(entries@, vendor@, 0) && i < entries@.len(),
            None => first_card(entries@, vendor@, 0) == entries@.len(),
        },
{
    let mut i: usize = 0;
    while i < entries.len()
        invariant
            i <= entries.len(),
            first_card(entries@, vendor@, i as int) == first_card(entries@, vendor@, 0),
        decreases entries.len() - i,
    {
        if is_card_of(&entries[i], vendor) {
            return Some(i);
        }
        i = i + 1;
    }
    None
}

/// The NVIDIA card, if there is one.
pub fn detect_nvidia(probe: &NvidiaProbe) -> (r: Option<GpuInfo>)
    ensures
        r == nvidia_of(*probe),
{
    if !probe.present {
        return None;
    }
    Some(GpuInfo { vendor: GpuVendor::Nvidia, vram_mib: read_number(&probe.memory_total) })
}

/// The AMD card, if there is one.
pub fn detect_amd(entries: &Vec<DrmEntry>) -> (r: Option<GpuInfo>)
    ensures
        r == amd_of(entries@),
{
    match find_card(entries, "0x1002") {
        Some(i) => {
            let vram_mib: Option<u64> = match read_number(&entries[i].amd_vram) {
                Some(b) => Some(b / 1024 / 1024),
                None => None,
            };
            Some(GpuInfo { vendor: GpuVendor::Amd, vram_mib })
        },
        None => None,
    }
}

/// The discrete Intel card, if there is one.
pub fn detect_intel(entries: &Vec<DrmEntry>) -> (r: Option<GpuInfo>)
    ensures
        r == intel_of(entries@),
{
    let mut i: usize = 0;
    while i < entries.len()
        invariant
            i <= entries.len(),
            first_arc(entries@, i as int) == first_arc(entries@, 0),
        decreases entries.len() - i,
    {
        if is_card_of(&entries[i], "0x8086") {
            if let Some(b) = read_number(&entries[i].intel_lmem) {
                if b > 0 {
                    return Some(
                        GpuInfo { vendor: GpuVendor::Intel, vram_mib: Some(b / 1024 / 1024) },
                    );
                }
            }
        }
        i = i + 1;
    }
    None
}

/// The primary graphics card: NVIDIA before AMD before Intel. None when there is no
/// discrete one.
pub fn detect_gpu(nvidia: &NvidiaProbe, entries: &Vec<DrmEntry>) -> (r: Option<GpuInfo>)
    ensures
        r == (if nvidia_of(*nvidia) is Some {
            nvidia_of(*nvidia)
        } else if amd_of(entries@) is Some {
            amd_of(entries@)
        } else {
            intel_of(entries@)
        }),
{
    if let Some(g) = detect_nvidia(nvidia) {
        return Some(g);
    }
    if let Some(g) = detect_amd(entries) {
        return Some(g);
    }
    detect_intel(entries)
}

/// The model to suggest: a discrete card goes by its memory, every other
/// machine by the memory of the system.
pub open spec fn model_for(gpu: Option<GpuInfo>, ram_mib: Option<u64>) -> Seq<char> {
    let large = match gpu {
        Some(GpuInfo { vendor, vram_mib: Some(v) }) => v >= 4096,
        _ => ram_mib is Some && ram_mib->0 >= 16384,
    };
    if large {
        "qwen2.5:7b"@
    } else {
        "qwen2.5:3b"@
    }
}

/// The model to suggest for the graphics card and the system memory.
pub fn suggested_model(gpu: Option<&GpuInfo>, ram_mib: Option<u64>) -> (r: &'static str)
    ensures
        r@ == model_for(
            match gpu {
                Some(g) => Some(*g),
                None => None,
            },
            ram_mib,
        ),
{
    let vram: Option<u64> = match gpu {
        Some(g) => g.vram_mib,
        None => None,
    };
    let large = match vram {
        Some(v) => v >= 4096,
        None => match ram_mib {
            Some(m) => m >= 16384,
            None => false,
        },
    };
    if large {
        "qwen2.5:7b"
    } else {
        "qwen2.5:3b"
    }
}

/// The position of the first line that starts with `prefix`, or the length.
pub open spec fn line_with(lines: Seq<Seq<char>>, prefix: Seq<char>, i: int) -> int
    decreases lines.len() - i,
{
    if i < 0 || i >= lines.len() {
        lines.len() as int
    } else if crate::text::starts_with(lines[i], prefix) {
        i
    } else {
        line_with(lines, prefix, i + 1)
    }
}

/// Total memory in MiB according to the kernel's memory report.
pub open spec fn ram_of(report: Seq<char>) -> Option<u64> {
    let lines = crate::text::lines(report);
    let i = line_with(lines, "MemTotal:"@, 0);
    if i < lines.len() {
        match crate::text::word(lines[i], 0, 1) {
            Some(w) => match crate::text::parse_number(w, 10, u64::MAX as nat) {
                Some(kb) => Some((kb / 1024) as u64),
                None => None,
            },
            None => None,
        }
    } else {
        None
    }
}

/// Total memory in MiB, from the kernel's memory report.
pub fn system_ram_mib(report: &str) -> (r: Option<u64>)
    ensures
        r == ram_of(report@),
{
    let lines = lines_of(report);
    let ghost all = crate::text::views(lines@);
    let mut i: usize = 0;
    while i < lines.len()
        invariant
            i <= lines.len(),
            all == crate::text::views(lines@),
            all == crate::text::lines(report@),
            line_with(all, "MemTotal:"@, i as int) == line_with(all, "MemTotal:"@, 0),
        decreases lines.len() - i,
    {
        let l = chars_of(lines[i].as_str());
        assert(all[i as int] == l@);
        if has_prefix(&l, "MemTotal:") {
            return match nth_word(&l, 1) {
                Some(w) => match crate::text::number_of(&w, 10, u64::MAX) {
                    Some(kb) => Some(kb / 1024),
                    None => None,
                },
                None => None,
            };
        }
        i = i + 1;
    }
    None
}

/// The name of a vendor in a sentence.
pub open spec fn vendor_name(v: GpuVendor) -> Seq<char> {
    match v {
        GpuVendor::Nvidia => "NVIDIA"@,
        GpuVendor::Amd => "AMD"@,
        GpuVendor::Intel => "Intel"@,
        GpuVendor::Unknown => "GPU"@,
    }
}

/// The sentence that explains a suggestion.
pub open spec fn reason_for(gpu: Option<GpuInfo>) -> Seq<char> {
    match gpu {
        None => "Recommended for CPU and integrated graphics"@,
        Some(g) => match g.vram_mib {
            Some(v) => "Recommended for your "@ + vendor_name(g.vendor) + " GPU ("@
                + crate::text::decimal(v as nat) + " MB VRAM)"@,
            None => "Recommended for your "@ + vendor_name(g.vendor) + " GPU"@,
        },
    }
}

/// The sentence shown next to the suggested model.
pub fn suggestion_reason(gpu: Option<&GpuInfo>) -> (r: String)
    ensures
        r@ == reason_for(
            match gpu {
                Some(g) => Some(*g),
                None => None,
            },
        ),
{
    match gpu {
        None => "Recommended for CPU and integrated graphics".to_owned(),
        Some(g) => {
            let vendor = match g.vendor {
                GpuVendor::Nvidia => "NVIDIA",
                GpuVendor::Amd => "AMD",
                GpuVendor::Intel => "Intel",
                GpuVendor::Unknown => "GPU",
            };
            let mut out = chars_of("Recommended for your ");
            push_str(&mut out, vendor);
            match g.vram_mib {
                Some(v) => {
                    push_str(&mut out, " GPU (");
                    push_decimal(&mut out, v as u128);
                    push_str(&mut out, " MB VRAM)");
                },
                None => {
                    push_str(&mut out, " GPU");
                },
            }
            string_of(&out)
        },
    }
}

/// The larger model is suggested for a card with at least four gigabytes, whatever
/// the system has; without a card whose memory is known, for a system with at least
/// sixteen.
pub proof fn law_large_machines_get_the_large_model(gpu: Option<GpuInfo>, ram_mib: Option<u64>)
    ensures
        gpu is Some && gpu->0.vram_mib is Some ==> {
            &&& gpu->0.vram_mib->0 >= 4096 ==> model_for(gpu, ram_mib) == "qwen2.5:7b"@
            &&& gpu->0.vram_mib->0 < 4096 ==> model_for(gpu, ram_mib) == "qwen2.5:3b"@
        },
        gpu is None || gpu->0.vram_mib is None ==> {
            &&& ram_mib is Some && ram_mib->0 >= 16384 ==> model_for(gpu, ram_mib) == "qwen2.5:7b"@
            &&& ram_mib is None || ram_mib->0 < 16384 ==> model_for(gpu, ram_mib) == "qwen2.5:3b"@
        },
{
}

/// The first card of a vendor counts: those before it are of other vendors, and one
/// is found where there is any.
pub proof fn law_first_card_counts(entries: Seq<DrmEntry>, vendor: Seq<char>, i: int)
    requires
        0 <= i <= entries.len(),
    ensures
        ({
            let k = first_card(entries, vendor, i);
            &&& i <= k <= entries.len()
            &&& k < entries.len() ==> card_of(entries[k], vendor)
            &&& forall|j: int| i <= j < k ==> !card_of(#[trigger] entries[j], vendor)
        }),
    decreases entries.len() - i,
{
    if i < entries.len() && !card_of(entries[i], vendor) {
        law_first_card_counts(entries, vendor, i + 1);
    }
}

/// Of Intel cards only those count that have memory of their own.
pub proof fn law_integrated_graphics_do_not_count(entries: Seq<DrmEntry>, i: int)
    requires
        0 <= i <= entries.len(),
    ensures
        ({
            let k = first_arc(entries, i);
            &&& i <= k <= entries.len()
            &&& k < entries.len() ==> card_of(entries[k], "0x8086"@) && number_in(
                entries[k].intel_lmem,
            ) is Some && number_in(entries[k].intel_lmem)->0 > 0
            &&& forall|j: int|
                i <= j < k && card_of(#[trigger] entries[j], "0x8086"@) ==> number_in(
                    entries[j].intel_lmem,
                ) is None || number_in(entries[j].intel_lmem)->0 == 0
        }),
    decreases entries.len() - i,
{
    if i < entries.len() && !(card_of(entries[i], "0x8086"@) && number_in(entries[i].intel_lmem) is Some
        && number_in(entries[i].intel_lmem)->0 > 0) {
        law_integrated_graphics_do_not_count(entries, i + 1);
    }
}

/// Memory that is told in bytes is counted in whole megabytes.
pub proof fn law_memory_is_counted_in_megabytes(n: u64, rest: u64)
    requires
        rest < 1048576,
        n * 1048576 + rest <= u64::MAX,
    ensures
        mib((n * 1048576 + rest) as u64) == n,
{
    let bytes = (n * 1048576 + rest) as u64;
    assert(bytes / 1024 / 1024 == n) by (nonlinear_arith)
        requires
            bytes == n * 1048576 + rest,
            rest < 1048576,
    ;
}

/// A card is told by its vendor, with the memory that is known of it.
pub proof fn law_cards_are_told_by_vendor(p: NvidiaProbe, entries: Seq<DrmEntry>)
    ensures
        p.present ==> nvidia_of(p) == Some(
            GpuInfo { vendor: GpuVendor::Nvidia, vram_mib: number_in(p.memory_total) },
        ),
        !p.present ==> nvidia_of(p) is None,
        ({
            let k = first_card(entries, "0x1002"@, 0);
            &&& k < entries.len() ==> amd_of(entries) is Some && amd_of(entries)->0.vendor
                == GpuVendor::Amd
            &&& k < entries.len() && number_in(entries[k].amd_vram) is Some ==> amd_of(
                entries,
            )->0.vram_mib == Some((number_in(entries[k].amd_vram)->0 / 1048576) as u64)
            &&& k >= entries.len() ==> amd_of(entries) is None
        }),
        ({
            let k = first_arc(entries, 0);
            &&& k < entries.len() ==> intel_of(entries) == Some(
                GpuInfo {
                    vendor: GpuVendor::Intel,
                    vram_mib: Some((number_in(entries[k].intel_lmem)->0 / 1048576) as u64),
                },
            )
            &&& k >= entries.len() ==> intel_of(entries) is None
        }),
{
    let k = first_card(entries, "0x1002"@, 0);
    let b = number_in(entries[k].amd_vram)->0;
    assert(b / 1024 / 1024 == b / 1048576) by (nonlinear_arith);
    let l = first_arc(entries, 0);
    let c = number_in(entries[l].intel_lmem)->0;
    assert(c / 1024 / 1024 == c / 1048576) by (nonlinear_arith);
}

/// The reason of a suggestion names the vendor of the card and its memory.
pub proof fn law_reasons_name_the_card(v: u64)
    ensures
        reason_for(Some(GpuInfo { vendor: GpuVendor::Nvidia, vram_mib: Some(v) }))
            == "Recommended for your "@ + "NVIDIA"@ + " GPU ("@ + crate::text::decimal(v as nat)
            + " MB VRAM)"@,
        reason_for(Some(GpuInfo { vendor: GpuVendor::Amd, vram_mib: Some(v) }))
            == "Recommended for your "@ + "AMD"@ + " GPU ("@ + crate::text::decimal(v as nat)
            + " MB VRAM)"@,
        reason_for(Some(GpuInfo { vendor: GpuVendor::Intel, vram_mib: Some(v) }))
            == "Recommended for your "@ + "Intel"@ + " GPU ("@ + crate::text::decimal(v as nat)
            + " MB VRAM)"@,
        reason_for(None) == "Recommended for CPU and integrated graphics"@,
{
}

} // verus!
