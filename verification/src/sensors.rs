//! Temperature decoding.
//!
//! CPU: the PawnIO kernel driver reads the vendor's thermal registers - MSRs
//! on Intel, SMN on AMD - and the raw register values are decoded here.
//! GPU: NVML on NVIDIA; anything else falls back to D3DKMT, the WDDM interface
//! Task Manager reads, which reports tenths of a degree.
//!
//! Every source degrades to `None` rather than failing, so a missing driver
//! shows "N/A" on the display instead of stopping the service. Readings are
//! exact integers: whole degrees on Intel, eighths of a degree on AMD, tenths
//! of a degree from WDDM.

use vstd::prelude::*;
use vstd::string::StringExecFns;

use crate::text::text_eq;

verus! {

#[derive(Clone, Copy, PartialEq, Eq, Structural, Debug)]
pub enum CpuVendor {
    Intel,
    Amd,
    Unknown,
}

/// The four little-endian bytes of a register.
pub open spec fn le_bytes(x: u32) -> Seq<u8> {
    seq![(x & 0xff) as u8, ((x >> 8) & 0xff) as u8, ((x >> 16) & 0xff) as u8, ((x >> 24) & 0xff) as u8]
}

/// The 12-byte vendor string CPUID leaf 0 returns in EBX, EDX, ECX.
pub open spec fn vendor_string(ebx: u32, edx: u32, ecx: u32) -> Seq<u8> {
    le_bytes(ebx) + le_bytes(edx) + le_bytes(ecx)
}

pub open spec fn genuine_intel() -> Seq<u8> {
    seq![0x47u8, 0x65, 0x6E, 0x75, 0x69, 0x6E, 0x65, 0x49, 0x6E, 0x74, 0x65, 0x6C]
}

pub open spec fn authentic_amd() -> Seq<u8> {
    seq![0x41u8, 0x75, 0x74, 0x68, 0x65, 0x6E, 0x74, 0x69, 0x63, 0x41, 0x4D, 0x44]
}

proof fn lemma_le_bytes_eq(x: u32, k: u32)
    ensures
        le_bytes(x) == le_bytes(k) <==> x == k,
{
    assert(x & 0xff <= 0xff && (x >> 8) & 0xff <= 0xff && (x >> 16) & 0xff <= 0xff && (x >> 24) & 0xff <= 0xff)
        by (bit_vector);
    assert(k & 0xff <= 0xff && (k >> 8) & 0xff <= 0xff && (k >> 16) & 0xff <= 0xff && (k >> 24) & 0xff <= 0xff)
        by (bit_vector);
    if le_bytes(x) == le_bytes(k) {
        assert(le_bytes(x)[0] == le_bytes(k)[0]);
        assert(le_bytes(x)[1] == le_bytes(k)[1]);
        assert(le_bytes(x)[2] == le_bytes(k)[2]);
        assert(le_bytes(x)[3] == le_bytes(k)[3]);
        assert((x & 0xff) == (k & 0xff) && ((x >> 8) & 0xff) == ((k >> 8) & 0xff) && ((x >> 16) & 0xff) == ((
        k >> 16) & 0xff) && ((x >> 24) & 0xff) == ((k >> 24) & 0xff) ==> x == k) by (bit_vector);
    }
}

proof fn lemma_vendor_string_eq(ebx: u32, edx: u32, ecx: u32, b: u32, d: u32, c: u32)
    ensures
        vendor_string(ebx, edx, ecx) == vendor_string(b, d, c) <==> (ebx == b && edx == d && ecx == c),
{
    lemma_le_bytes_eq(ebx, b);
    lemma_le_bytes_eq(edx, d);
    lemma_le_bytes_eq(ecx, c);
    let v1 = vendor_string(ebx, edx, ecx);
    let v2 = vendor_string(b, d, c);
    if v1 == v2 {
        assert(le_bytes(ebx) == v1.subrange(0, 4));
        assert(le_bytes(b) == v2.subrange(0, 4));
        assert(le_bytes(edx) == v1.subrange(4, 8));
        assert(le_bytes(d) == v2.subrange(4, 8));
        assert(le_bytes(ecx) == v1.subrange(8, 12));
        assert(le_bytes(c) == v2.subrange(8, 12));
    }
}

/// The CPU vendor named by the registers CPUID leaf 0 returns: EBX, EDX, ECX
/// spell the vendor string.
pub fn detect_cpu_vendor(ebx: u32, edx: u32, ecx: u32) -> (v: CpuVendor)
    ensures
        vendor_string(ebx, edx, ecx) == genuine_intel() ==> v == CpuVendor::Intel,
        vendor_string(ebx, edx, ecx) == authentic_amd() ==> v == CpuVendor::Amd,
        vendor_string(ebx, edx, ecx) != genuine_intel() && vendor_string(ebx, edx, ecx) != authentic_amd()
            ==> v == CpuVendor::Unknown,
{
    proof {
        assert(vendor_string(0x756E6547, 0x49656E69, 0x6C65746E) == genuine_intel()) by {
            assert(le_bytes(0x756E6547) == seq![0x47u8, 0x65, 0x6E, 0x75]) by {
                assert(0x756E6547u32 & 0xff == 0x47 && (0x756E6547u32 >> 8) & 0xff == 0x65 && (0x756E6547u32 >> 16) & 0xff
                    == 0x6E && (0x756E6547u32 >> 24) & 0xff == 0x75) by (bit_vector);
            }
            assert(le_bytes(0x49656E69) == seq![0x69u8, 0x6E, 0x65, 0x49]) by {
                assert(0x49656E69u32 & 0xff == 0x69 && (0x49656E69u32 >> 8) & 0xff == 0x6E && (0x49656E69u32 >> 16) & 0xff
                    == 0x65 && (0x49656E69u32 >> 24) & 0xff == 0x49) by (bit_vector);
            }
            assert(le_bytes(0x6C65746E) == seq![0x6Eu8, 0x74, 0x65, 0x6C]) by {
                assert(0x6C65746Eu32 & 0xff == 0x6E && (0x6C65746Eu32 >> 8) & 0xff == 0x74 && (0x6C65746Eu32 >> 16) & 0xff
                    == 0x65 && (0x6C65746Eu32 >> 24) & 0xff == 0x6C) by (bit_vector);
            }
            assert(vendor_string(0x756E6547, 0x49656E69, 0x6C65746E) =~= genuine_intel());
        }
        assert(vendor_string(0x68747541, 0x69746E65, 0x444D4163) == authentic_amd()) by {
            assert(le_bytes(0x68747541) == seq![0x41u8, 0x75, 0x74, 0x68]) by {
                assert(0x68747541u32 & 0xff == 0x41 && (0x68747541u32 >> 8) & 0xff == 0x75 && (0x68747541u32 >> 16) & 0xff
                    == 0x74 && (0x68747541u32 >> 24) & 0xff == 0x68) by (bit_vector);
            }
            assert(le_bytes(0x69746E65) == seq![0x65u8, 0x6E, 0x74, 0x69]) by {
                assert(0x69746E65u32 & 0xff == 0x65 && (0x69746E65u32 >> 8) & 0xff == 0x6E && (0x69746E65u32 >> 16) & 0xff
                    == 0x74 && (0x69746E65u32 >> 24) & 0xff == 0x69) by (bit_vector);
            }
            assert(le_bytes(0x444D4163) == seq![0x63u8, 0x41, 0x4D, 0x44]) by {
                assert(0x444D4163u32 & 0xff == 0x63 && (0x444D4163u32 >> 8) & 0xff == 0x41 && (0x444D4163u32 >> 16) & 0xff
                    == 0x4D && (0x444D4163u32 >> 24) & 0xff == 0x44) by (bit_vector);
            }
            assert(vendor_string(0x68747541, 0x69746E65, 0x444D4163) =~= authentic_amd());
        }
        lemma_vendor_string_eq(ebx, edx, ecx, 0x756E6547, 0x49656E69, 0x6C65746E);
        lemma_vendor_string_eq(ebx, edx, ecx, 0x68747541, 0x69746E65, 0x444D4163);
    }
    if ebx == 0x756E6547 && edx == 0x49656E69 && ecx == 0x6C65746E {
        CpuVendor::Intel
    } else if ebx == 0x68747541 && edx == 0x69746E65 && ecx == 0x444D4163 {
        CpuVendor::Amd
    } else {
        CpuVendor::Unknown
    }
}

/// Family and model from the EAX of CPUID leaf 1, combined the way Intel and
/// AMD document them: the extended family is added for base family 0xF, and
/// the extended model is prepended for base families 0x6 and 0xF.
pub open spec fn spec_family_model(eax: u32) -> (u32, u32) {
    let base_family = (eax >> 8) & 0xF;
    let base_model = (eax >> 4) & 0xF;
    let family = if base_family == 0xF {
        (base_family + ((eax >> 20) & 0xFF)) as u32
    } else {
        base_family
    };
    let model = if base_family == 0x6 || base_family == 0xF {
        (base_model + (((eax >> 16) & 0xF) << 4)) as u32
    } else {
        base_model
    };
    (family, model)
}

/// The CPU family and model encoded in the EAX of CPUID leaf 1.
pub fn cpu_family_model(eax: u32) -> (fm: (u32, u32))
    ensures
        fm == spec_family_model(eax),
{
    let base_family = (eax >> 8) & 0xF;
    let base_model = (eax >> 4) & 0xF;
    assert(base_family <= 0xF && base_model <= 0xF && (eax >> 20) & 0xFF <= 0xFF && ((eax >> 16) & 0xF) << 4
        <= 0xF0) by (bit_vector)
        requires
            base_family == (eax >> 8) & 0xF,
            base_model == (eax >> 4) & 0xF,
    ;
    let family = if base_family == 0xF {
        base_family + ((eax >> 20) & 0xFF)
    } else {
        base_family
    };
    let model = if base_family == 0x6 || base_family == 0xF {
        base_model + (((eax >> 16) & 0xF) << 4)
    } else {
        base_model
    };
    (family, model)
}

/// The PawnIO module that reads the temperature of this CPU.
pub open spec fn spec_pawnio_module(vendor: CpuVendor, family: u32) -> Option<Seq<char>> {
    match vendor {
        CpuVendor::Intel => Some("IntelMSR.bin"@),
        CpuVendor::Amd => if 0x17 <= family <= 0x1A {
            Some("AMDFamily17.bin"@)
        } else if 0x10 <= family <= 0x16 {
            Some("AMDFamily10.bin"@)
        } else if family == 0x0F {
            Some("AMDFamily0F.bin"@)
        } else {
            Some("AMDFamily17.bin"@)
        },
        CpuVendor::Unknown => None,
    }
}

/// The file name of the PawnIO module for this CPU; an unknown vendor has none.
pub fn pawnio_module(vendor: CpuVendor, family: u32) -> (r: Result<&'static str, String>)
    ensures
        spec_pawnio_module(vendor, family) matches Some(m) ==> (r matches Ok(name) && name@ == m),
        spec_pawnio_module(vendor, family) is None ==> (r matches Err(e) && e@ == "unrecognised CPU vendor"@),
{
    match vendor {
        CpuVendor::Intel => Ok("IntelMSR.bin"),
        CpuVendor::Amd => {
            if 0x17 <= family && family <= 0x1A {
                Ok("AMDFamily17.bin")
            } else if 0x10 <= family && family <= 0x16 {
                Ok("AMDFamily10.bin")
            } else if family == 0x0F {
                Ok("AMDFamily0F.bin")
            } else {
                Ok("AMDFamily17.bin")
            }
        },
        CpuVendor::Unknown => Err(String::from_str("unrecognised CPU vendor")),
    }
}

/// MSR_TEMPERATURE_TARGET: bits 23:16 hold TjMax.
pub const MSR_TEMPERATURE_TARGET: u64 = 0x1A2;

/// IA32_PACKAGE_THERM_STATUS, then core 0's IA32_THERM_STATUS for parts
/// without a package sensor.
pub const INTEL_THERM_MSRS: [u64; 2] = [0x1B1, 0x19C];

/// SMN address of THM_TCON_CUR_TMP on AMD.
pub const AMD_THM_TCON_CUR_TMP: u64 = 0x0005_9800;

/// TjMax assumed when the CPU does not report a plausible one.
pub const DEFAULT_TJMAX: u32 = 100;

pub open spec fn spec_tjmax(reading: Option<u64>) -> u32 {
    match reading {
        Some(v) => if 50 <= (v >> 16) & 0xFF <= 130 {
            ((v >> 16) & 0xFF) as u32
        } else {
            DEFAULT_TJMAX
        },
        None => DEFAULT_TJMAX,
    }
}

/// TjMax in degrees from a MSR_TEMPERATURE_TARGET reading: bits 23:16 when
/// they hold 50 to 130, otherwise (or without a reading) 100.
pub fn tjmax(reading: Option<u64>) -> (t: u32)
    ensures
        t == spec_tjmax(reading),
{
    match reading {
        Some(v) => {
            let tj = (v >> 16) & 0xFF;
            assert((v >> 16) & 0xFF <= 0xFF) by (bit_vector);
            if 50 <= tj && tj <= 130 {
                tj as u32
            } else {
                DEFAULT_TJMAX
            }
        },
        None => DEFAULT_TJMAX,
    }
}

/// Intel package temperature in whole degrees from a thermal status MSR:
/// valid when bit 31 is set, reported as the distance below TjMax in bits
/// 22:16, and only believed between 0 and 130.
pub open spec fn spec_intel_temperature(tjmax: u32, v: u64) -> Option<u32> {
    let t = tjmax as int - ((v >> 16) & 0x7F) as int;
    if (v >> 31) & 1 == 1 && 0 <= t <= 130 {
        Some(t as u32)
    } else {
        None
    }
}

pub fn intel_temperature(tjmax: u32, v: u64) -> (t: Option<u32>)
    ensures
        t == spec_intel_temperature(tjmax, v),
{
    if (v >> 31) & 1 == 1 {
        assert((v >> 16) & 0x7F <= 0x7F) by (bit_vector);
        let delta = ((v >> 16) & 0x7F) as i64;
        let t: i64 = tjmax as i64 - delta;
        if 0 <= t && t <= 130 {
            return Some(t as u32);
        }
    }
    None
}

/// AMD temperature in eighths of a degree from THM_TCON_CUR_TMP: bits 31:21
/// are the reading, bit 19 selects the range offset by -49 C, and the result
/// is only believed between 0 and 130 C.
pub open spec fn spec_amd_temperature(v: u64) -> Option<u32> {
    let raw = ((v >> 21) & 0x7FF) as int;
    let t = if (v >> 19) & 1 == 1 { raw - 49 * 8 } else { raw };
    if 0 <= t <= 130 * 8 {
        Some(t as u32)
    } else {
        None
    }
}

pub fn amd_temperature_eighths(v: u64) -> (t: Option<u32>)
    ensures
        t == spec_amd_temperature(v),
{
    assert((v >> 21) & 0x7FF <= 0x7FF) by (bit_vector);
    let raw = ((v >> 21) & 0x7FF) as i64;
    let t: i64 = if (v >> 19) & 1 == 1 { raw - 392 } else { raw };
    if 0 <= t && t <= 1040 {
        Some(t as u32)
    } else {
        None
    }
}

/// The note shown when a CPU sensor opened: `CPU: Intel via PawnIO`.
pub fn cpu_note(vendor: CpuVendor) -> (s: String)
    ensures
        vendor == CpuVendor::Intel ==> s@ == "CPU: Intel via PawnIO"@,
        vendor == CpuVendor::Amd ==> s@ == "CPU: Amd via PawnIO"@,
        vendor == CpuVendor::Unknown ==> s@ == "CPU: Unknown via PawnIO"@,
{
    match vendor {
        CpuVendor::Intel => String::from_str("CPU: Intel via PawnIO"),
        CpuVendor::Amd => String::from_str("CPU: Amd via PawnIO"),
        CpuVendor::Unknown => String::from_str("CPU: Unknown via PawnIO"),
    }
}

/// Whether a sensor setting asks for a sensor at all (`none` turns it off).
pub fn sensor_enabled(setting: &str) -> (on: bool)
    ensures
        on == (setting@ != "none"@),
{
    !text_eq(setting, "none")
}

// ------------------------------------------------------------------------
// GPU
// ------------------------------------------------------------------------

/// Where GPU temperature comes from.
#[derive(Clone, Copy, PartialEq, Eq, Structural)]
pub enum GpuBackend {
    Nvidia,
    /// Vendor-neutral WDDM path, used for AMD and Intel adapters.
    Wddm,
}

impl GpuBackend {
    pub fn name(&self) -> (n: &'static str)
        ensures
            *self == GpuBackend::Nvidia ==> n@ == "NVIDIA (NVML)"@,
            *self == GpuBackend::Wddm ==> n@ == "WDDM (D3DKMT)"@,
    {
        match self {
            GpuBackend::Nvidia => "NVIDIA (NVML)",
            GpuBackend::Wddm => "WDDM (D3DKMT)",
        }
    }
}

/// Whether the GPU setting asks to try NVML first (`auto` or `nvidia`).
pub fn wants_nvidia(preference: &str) -> (yes: bool)
    ensures
        yes == (preference@ == "auto"@ || preference@ == "nvidia"@),
{
    text_eq(preference, "auto") || text_eq(preference, "nvidia")
}

/// What to do once NVML has been tried.
pub enum NvmlOutcome {
    /// NVML works and sees a device: use it.
    UseNvidia,
    /// NVML was demanded and failed to start: report that.
    Fail,
    /// Fall back to the WDDM adapters.
    TryWddm,
}

/// After trying NVML: use it when it started and sees at least one device;
/// when it failed to start, fail only if `nvidia` was asked for by name.
pub fn after_nvml(preference: &str, started: bool, device_count: u32) -> (o: NvmlOutcome)
    ensures
        started && device_count > 0 ==> o is UseNvidia,
        started && device_count == 0 ==> o is TryWddm,
        !started && preference@ == "nvidia"@ ==> o is Fail,
        !started && preference@ != "nvidia"@ ==> o is TryWddm,
{
    if started {
        if device_count > 0 {
            NvmlOutcome::UseNvidia
        } else {
            NvmlOutcome::TryWddm
        }
    } else if text_eq(preference, "nvidia") {
        NvmlOutcome::Fail
    } else {
        NvmlOutcome::TryWddm
    }
}

/// A WDDM adapter as probed: its dedicated video memory (0 when that could
/// not be read) and whether it reports a temperature.
#[derive(Clone, Copy)]
pub struct AdapterProbe {
    pub dedicated: u64,
    pub has_temperature: bool,
}

/// The adapter to read: among those that report a temperature, the one with
/// the most dedicated memory, which distinguishes a discrete GPU from
/// integrated graphics and virtual displays; the earliest on a tie.
pub open spec fn is_best_adapter(ps: Seq<AdapterProbe>, i: int) -> bool {
    &&& 0 <= i < ps.len()
    &&& ps[i].has_temperature
    &&& forall|j: int| 0 <= j < ps.len() && #[trigger] ps[j].has_temperature ==> ps[j].dedicated <= ps[i].dedicated
    &&& forall|j: int| 0 <= j < i && #[trigger] ps[j].has_temperature ==> ps[j].dedicated < ps[i].dedicated
}

pub fn best_adapter(probes: &[AdapterProbe]) -> (r: Option<usize>)
    ensures
        r matches Some(i) ==> is_best_adapter(probes@, i as int),
        r is None ==> forall|j: int| 0 <= j < probes@.len() ==> !(#[trigger] probes@[j]).has_temperature,
{
    let mut best: Option<usize> = None;
    let mut i: usize = 0;
    while i < probes.len()
        invariant
            0 <= i <= probes@.len(),
            best is None ==> forall|j: int| 0 <= j < i ==> !(#[trigger] probes@[j]).has_temperature,
            best matches Some(b) ==> b < i && probes@[b as int].has_temperature
                && (forall|j: int| 0 <= j < i && #[trigger] probes@[j].has_temperature ==> probes@[j].dedicated <= probes@[b as int].dedicated)
                && (forall|j: int| 0 <= j < b && #[trigger] probes@[j].has_temperature ==> probes@[j].dedicated < probes@[b as int].dedicated),
        decreases probes@.len() - i,
    {
        if probes[i].has_temperature {
            match best {
                Some(b) => {
                    if probes[b].dedicated < probes[i].dedicated {
                        best = Some(i);
                    }
                },
                None => {
                    best = Some(i);
                },
            }
        }
        i = i + 1;
    }
    best
}

/// A WDDM performance reading in tenths of a degree; 0 means there is none.
pub fn reported_temperature(raw: u32) -> (t: Option<u32>)
    ensures
        raw == 0 ==> t is None,
        raw != 0 ==> t == Some(raw),
{
    if raw == 0 {
        None
    } else {
        Some(raw)
    }
}

/// An adapter temperature in tenths of a degree, only believed up to 130 C.
pub fn adapter_temperature_tenths(raw: u32) -> (t: Option<u32>)
    ensures
        raw <= 1300 ==> t == Some(raw),
        raw > 1300 ==> t is None,
{
    if raw <= 1300 {
        Some(raw)
    } else {
        None
    }
}

/// Law: an Intel thermal status reading. With the valid bit (bit 31) clear
/// there is no temperature. With it set, the temperature is TjMax minus the
/// digital readout in bits 22:16, when that lies between 0 and 130 C, and
/// there is none otherwise. No other bit of the reading matters.
pub proof fn lemma_intel_reading(tjmax: u32, v: u64, w: u64)
    ensures
        (v / 0x8000_0000) % 2 == 0 ==> spec_intel_temperature(tjmax, v) is None,
        (v / 0x8000_0000) % 2 == 1 && 0 <= tjmax - (v / 0x1_0000) % 128 <= 130 ==> spec_intel_temperature(tjmax, v)
            == Some((tjmax - (v / 0x1_0000) % 128) as u32),
        (v / 0x8000_0000) % 2 == 1 && !(0 <= tjmax - (v / 0x1_0000) % 128 <= 130) ==> spec_intel_temperature(
            tjmax,
            v,
        ) is None,
        (v / 0x8000_0000) % 2 == (w / 0x8000_0000) % 2 && (v / 0x1_0000) % 128 == (w / 0x1_0000) % 128
            ==> spec_intel_temperature(tjmax, v) == spec_intel_temperature(tjmax, w),
{
    assert((v >> 16) & 0x7F == (v / 0x1_0000) % 128) by (bit_vector);
    assert((v >> 31) & 1 == (v / 0x8000_0000) % 2) by (bit_vector);
    assert((w >> 16) & 0x7F == (w / 0x1_0000) % 128) by (bit_vector);
    assert((w >> 31) & 1 == (w / 0x8000_0000) % 2) by (bit_vector);
}

} // verus!
