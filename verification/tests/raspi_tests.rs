use raspi_observer::raspi::{arm_memory_field, cpu_info_fields, gpu_memory_field, throttled_field, RaspiMetric};
use raspi_observer::raspi::{
    core_voltage_field, cpu_clock_field, disk_usage_field, gpu_temperature_field,
    thermal_zone_field, vcgencmd_output, DiskUsageError,
};

#[test]
fn thermal_zone_text() {
    assert_eq!(thermal_zone_field("47234\n"), "47234");
    assert_eq!(vcgencmd_output("  temp=48.3'C\n"), "temp=48.3'C");
}

#[test]
fn vcgencmd_fields() {
    assert_eq!(gpu_temperature_field("temp=48.3'C"), Some("48.3".to_string()));
    assert_eq!(gpu_temperature_field("temp=48.3"), None);
    assert_eq!(gpu_temperature_field("48.3'C"), None);
    assert_eq!(cpu_clock_field("frequency(48)=1500398464"), Some("1500398464".to_string()));
    assert_eq!(cpu_clock_field("frequency"), None);
    assert_eq!(core_voltage_field("volt=0.8500V"), Some("0.8500".to_string()));
    assert_eq!(core_voltage_field("volts=0.85V"), None);
}

#[test]
fn df_usage() {
    let out = "Filesystem     1K-blocks    Used Available Use% Mounted on\n/dev/root       30358348 9253316  19839164  32% /\n";
    assert!(matches!(disk_usage_field(out), Ok(ref s) if s == "32"));
    assert!(matches!(disk_usage_field("Filesystem only"), Err(DiskUsageError::TooFewLines)));
    match disk_usage_field("header\n/dev/root 1 2\n") {
        Err(DiskUsageError::TooFewFields(parts)) => assert_eq!(parts, vec!["/dev/root", "1", "2"]),
        _ => panic!("expected too few fields"),
    }
}

#[test]
fn throttled_bit_mask() {
    assert_eq!(throttled_field("throttled=0x50005"), Some(0x50005));
    assert_eq!(throttled_field("throttled=0x0"), Some(0));
    assert_eq!(throttled_field("throttled=0xFfFf"), Some(0xffff));
    assert_eq!(throttled_field("throttled=0x"), None);
    assert_eq!(throttled_field("throttled=0x5g"), None);
    assert_eq!(throttled_field("throttled=50005"), None);
    assert_eq!(throttled_field("throttled=0x10000000000000000"), None);
    assert_eq!(throttled_field("throttled=0xffffffffffffffff"), Some(u64::MAX));
}

#[test]
fn memory_split() {
    assert_eq!(gpu_memory_field("gpu=76M"), Some("76".to_string()));
    assert_eq!(arm_memory_field("arm=948M"), Some("948".to_string()));
    assert_eq!(gpu_memory_field("arm=948M"), None);
    assert_eq!(arm_memory_field("arm=948"), None);
}

#[test]
fn hardware_information() {
    let content = "processor\t: 0\nBogoMIPS\t: 108.00\n\nHardware\t: BCM2835\nRevision\t: c03114\nSerial\t\t: 100000001234abcd\nModel\t\t: Raspberry Pi 4 Model B Rev 1.4\n";
    let info = cpu_info_fields(content);
    assert_eq!(info.model, "Raspberry Pi 4 Model B Rev 1.4");
    assert_eq!(info.revision, "c03114");
    assert_eq!(info.serial, "100000001234abcd");
    let none = cpu_info_fields("processor : 0\n");
    assert_eq!((none.model.as_str(), none.revision.as_str(), none.serial.as_str()), ("unknown", "unknown", "unknown"));
}

#[test]
fn raspi_metric_table() {
    assert_eq!(RaspiMetric::Throttled.name(), "raspi_throttled");
    assert_eq!(RaspiMetric::Info.labels(), vec!["model", "revision", "serial"]);
    assert_eq!(RaspiMetric::ThermalTrip.labels(), vec!["type"]);
    assert!(RaspiMetric::DiskUsage.labels().is_empty());
    assert_eq!(RaspiMetric::GpuMemory.help(), "GPU-Speicher in MB");
}
