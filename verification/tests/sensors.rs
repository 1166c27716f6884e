use customaio::sensors::{
    adapter_temperature_tenths, after_nvml, amd_temperature_eighths, best_adapter, cpu_family_model,
    cpu_note, detect_cpu_vendor, intel_temperature, pawnio_module, reported_temperature, sensor_enabled,
    tjmax, wants_nvidia, AdapterProbe, CpuVendor, GpuBackend, NvmlOutcome,
};

#[test]
fn vendor_from_cpuid_registers() {
    // "GenuineIntel" and "AuthenticAMD" as EBX, EDX, ECX.
    assert_eq!(detect_cpu_vendor(0x756E6547, 0x49656E69, 0x6C65746E), CpuVendor::Intel);
    assert_eq!(detect_cpu_vendor(0x68747541, 0x69746E65, 0x444D4163), CpuVendor::Amd);
    assert_eq!(detect_cpu_vendor(0x68747541, 0x49656E69, 0x6C65746E), CpuVendor::Unknown);
    assert_eq!(detect_cpu_vendor(0, 0, 0), CpuVendor::Unknown);
}

#[test]
fn family_and_model_fold_in_extended_fields() {
    // Zen 3: family 0x19, model 0x21.
    assert_eq!(cpu_family_model(0x00A2_0F10), (0x19, 0x21));
    // Alder Lake: family 6, model 0x97.
    assert_eq!(cpu_family_model(0x0009_0672), (0x6, 0x97));
    // Base family 5 takes neither extension.
    assert_eq!(cpu_family_model(0x0FF0_0543), (0x5, 0x4));
}

#[test]
fn pawnio_module_per_vendor_and_family() {
    assert_eq!(pawnio_module(CpuVendor::Intel, 6), Ok("IntelMSR.bin"));
    assert_eq!(pawnio_module(CpuVendor::Amd, 0x19), Ok("AMDFamily17.bin"));
    assert_eq!(pawnio_module(CpuVendor::Amd, 0x1A), Ok("AMDFamily17.bin"));
    assert_eq!(pawnio_module(CpuVendor::Amd, 0x15), Ok("AMDFamily10.bin"));
    assert_eq!(pawnio_module(CpuVendor::Amd, 0x0F), Ok("AMDFamily0F.bin"));
    assert_eq!(pawnio_module(CpuVendor::Amd, 0x30), Ok("AMDFamily17.bin"));
    assert_eq!(pawnio_module(CpuVendor::Unknown, 6), Err("unrecognised CPU vendor".to_string()));
}

#[test]
fn tjmax_is_taken_when_plausible() {
    assert_eq!(tjmax(Some(0x0064_0000)), 100);
    assert_eq!(tjmax(Some(0x005A_0000)), 90);
    assert_eq!(tjmax(Some(0x0020_0000)), 100);
    assert_eq!(tjmax(Some(0x0083_0000)), 100);
    assert_eq!(tjmax(None), 100);
}

#[test]
fn intel_temperature_is_tjmax_minus_distance() {
    assert_eq!(intel_temperature(100, 0x8028_0000), Some(60));
    assert_eq!(intel_temperature(90, 0x8000_0000), Some(90));
    // Bit 31 clear: not a valid reading.
    assert_eq!(intel_temperature(100, 0x0028_0000), None);
    // Further below TjMax than zero degrees.
    assert_eq!(intel_temperature(100, 0x807F_0000), None);
}

#[test]
fn amd_temperature_in_eighths() {
    assert_eq!(amd_temperature_eighths(400u64 << 21), Some(400));
    assert_eq!(amd_temperature_eighths((800u64 << 21) | (1 << 19)), Some(408));
    assert_eq!(amd_temperature_eighths(100u64 << 21 | (1 << 19)), None);
    assert_eq!(amd_temperature_eighths(2047u64 << 21), None);
    assert_eq!(amd_temperature_eighths(1040u64 << 21), Some(1040));
}

#[test]
fn sensor_notes_and_switches() {
    assert_eq!(cpu_note(CpuVendor::Intel), "CPU: Intel via PawnIO");
    assert_eq!(cpu_note(CpuVendor::Amd), "CPU: Amd via PawnIO");
    assert!(!sensor_enabled("none"));
    assert!(sensor_enabled("auto"));
    assert!(sensor_enabled("None"));
}

#[test]
fn gpu_source_decisions() {
    assert!(wants_nvidia("auto"));
    assert!(wants_nvidia("nvidia"));
    assert!(!wants_nvidia("wddm"));
    assert!(matches!(after_nvml("auto", true, 1), NvmlOutcome::UseNvidia));
    assert!(matches!(after_nvml("auto", true, 0), NvmlOutcome::TryWddm));
    assert!(matches!(after_nvml("nvidia", false, 0), NvmlOutcome::Fail));
    assert!(matches!(after_nvml("auto", false, 0), NvmlOutcome::TryWddm));
    assert_eq!(GpuBackend::Nvidia.name(), "NVIDIA (NVML)");
    assert_eq!(GpuBackend::Wddm.name(), "WDDM (D3DKMT)");
}

#[test]
fn best_adapter_has_most_memory_and_a_temperature() {
    let p = |dedicated: u64, has_temperature: bool| AdapterProbe { dedicated, has_temperature };
    assert_eq!(best_adapter(&[p(100, true), p(500, false), p(300, true), p(300, true)]), Some(2));
    assert_eq!(best_adapter(&[p(0, true), p(0, true)]), Some(0));
    assert_eq!(best_adapter(&[p(800, false)]), None);
    assert_eq!(best_adapter(&[]), None);
}

#[test]
fn wddm_temperatures() {
    assert_eq!(reported_temperature(0), None);
    assert_eq!(reported_temperature(456), Some(456));
    assert_eq!(adapter_temperature_tenths(456), Some(456));
    assert_eq!(adapter_temperature_tenths(1300), Some(1300));
    assert_eq!(adapter_temperature_tenths(1301), None);
}
