//! What is recorded of the machine a run was made on: the readings come from
//! the operating system, and the record fills in what the system would not
//! say.

use sysinfo::System;
use vstd::prelude::*;

verus! {

/// The handle through which the operating system is asked about the machine.
#[verifier::external_type_specification]
#[verifier::external_body]
pub struct ExSystem(sysinfo::System);

/// The machine a run was made on.
#[derive(Debug, Clone)]
pub struct SystemInfo {
    pub cpu_brand: String,
    pub cpu_physical_cores: usize,
    pub cpu_logical_cores: usize,
    pub total_memory_mb: u64,
    pub os_name: String,
    pub os_version: String,
    pub hostname: String,
}

/// The text of a reading, or the fallback where the system gave none.
pub open spec fn text_or_spec(reading: Option<String>, fallback: Seq<char>) -> Seq<char> {
    match reading {
        Some(text) => text@,
        None => fallback,
    }
}

/// The brand of the first processor, or "Unknown CPU" where none is listed.
pub open spec fn first_brand_spec(brands: Seq<String>) -> Seq<char> {
    if brands.len() > 0 {
        brands[0]@
    } else {
        "Unknown CPU"@
    }
}

/// `sysinfo::System::new_all`: a handle with every kind of information
/// loaded. Nothing is claimed of what it holds.
#[verifier::external_body]
fn system_new_all() -> (system: System) {
    System::new_all()
}

/// `sysinfo::System::refresh_all`: reads everything again.
#[verifier::external_body]
fn system_refresh_all(system: &mut System) {
    system.refresh_all()
}

/// `sysinfo::System::cpus` with `sysinfo::Cpu::brand` of each entry: the
/// brand names of the logical processors, in the system's order. Nothing is
/// claimed of how many there are or what they say.
#[verifier::external_body]
fn cpu_brands(system: &System) -> (brands: Vec<String>) {
    system.cpus().iter().map(|cpu| cpu.brand().to_string()).collect()
}

/// `sysinfo::System::total_memory`: the size of the RAM in bytes, as the
/// system reports it.
#[verifier::external_body]
fn total_memory_bytes(system: &System) -> (bytes: u64) {
    system.total_memory()
}

/// `sysinfo::System::physical_core_count`: the number of physical cores, or
/// `None` where the system cannot tell.
#[verifier::external_body]
fn physical_core_count() -> (cores: Option<usize>) {
    System::physical_core_count()
}

/// `sysinfo::System::name`: the name of the operating system, if known.
#[verifier::external_body]
fn system_name() -> (name: Option<String>) {
    System::name()
}

/// `sysinfo::System::os_version`: the version of the operating system, if
/// known.
#[verifier::external_body]
fn system_os_version() -> (version: Option<String>) {
    System::os_version()
}

/// `sysinfo::System::host_name`: the name of the host, if known.
#[verifier::external_body]
fn system_host_name() -> (name: Option<String>) {
    System::host_name()
}

fn text_or(reading: Option<String>, fallback: &str) -> (text: String)
    ensures
        text@ == text_or_spec(reading, fallback@),
{
    match reading {
        Some(text) => text,
        None => fallback.to_string(),
    }
}

impl SystemInfo {
    /// The record for a set of readings: the first processor's brand, the
    /// core counts, the memory in whole mebibytes, and "Unknown" (0 for the
    /// physical cores) wherever a reading is missing.
    pub fn from_readings(
        brands: Vec<String>,
        physical_cores: Option<usize>,
        memory_bytes: u64,
        os_name: Option<String>,
        os_version: Option<String>,
        hostname: Option<String>,
    ) -> (info: SystemInfo)
        ensures
            info.cpu_brand@ == first_brand_spec(brands@),
            info.cpu_physical_cores == match physical_cores {
                Some(cores) => cores,
                None => 0,
            },
            info.cpu_logical_cores == brands@.len(),
            info.total_memory_mb == memory_bytes / 1048576,
            info.os_name@ == text_or_spec(os_name, "Unknown"@),
            info.os_version@ == text_or_spec(os_version, "Unknown"@),
            info.hostname@ == text_or_spec(hostname, "Unknown"@),
    {
        let cpu_brand = if brands.len() > 0 {
            brands[0].clone()
        } else {
            "Unknown CPU".to_string()
        };
        let cpu_physical_cores = match physical_cores {
            Some(cores) => cores,
            None => 0,
        };
        SystemInfo {
            cpu_brand,
            cpu_physical_cores,
            cpu_logical_cores: brands.len(),
            total_memory_mb: memory_bytes / (1024 * 1024),
            os_name: text_or(os_name, "Unknown"),
            os_version: text_or(os_version, "Unknown"),
            hostname: text_or(hostname, "Unknown"),
        }
    }

    /// Asks the operating system about this machine and records the answers.
    /// What they are is the machine's affair; how they are recorded is
    /// `from_readings`.
    pub fn capture() -> (info: SystemInfo)
        ensures
            exists|
                brands: Seq<String>,
                physical_cores: Option<usize>,
                memory_bytes: u64,
                os_name: Option<String>,
                os_version: Option<String>,
                hostname: Option<String>,
            | #[trigger]
                records(info, brands, physical_cores, memory_bytes, os_name, os_version, hostname),
            info.cpu_logical_cores == 0 ==> info.cpu_brand@ == "Unknown CPU"@,
            info.total_memory_mb <= u64::MAX / 1048576,
    {
        let mut system = system_new_all();
        system_refresh_all(&mut system);
        let brands = cpu_brands(&system);
        let physical_cores = physical_core_count();
        let memory_bytes = total_memory_bytes(&system);
        let os_name = system_name();
        let os_version = system_os_version();
        let hostname = system_host_name();
        let ghost read_brands = brands@;
        let ghost read_name = os_name;
        let ghost read_version = os_version;
        let ghost read_host = hostname;
        let info = SystemInfo::from_readings(
            brands,
            physical_cores,
            memory_bytes,
            os_name,
            os_version,
            hostname,
        );
        proof {
            assert(records(
                info,
                read_brands,
                physical_cores,
                memory_bytes,
                read_name,
                read_version,
                read_host,
            ));
        }
        info
    }
}

/// `info` is the record of these readings: the brand of the first processor
/// listed, the number of processors listed, the physical cores, the memory
/// in whole mebibytes, the three texts, and the fallback for every reading
/// that is missing.
pub open spec fn records(
    info: SystemInfo,
    brands: Seq<String>,
    physical_cores: Option<usize>,
    memory_bytes: u64,
    os_name: Option<String>,
    os_version: Option<String>,
    hostname: Option<String>,
) -> bool {
    &&& info.cpu_brand@ == first_brand_spec(brands)
    &&& info.cpu_physical_cores == match physical_cores {
        Some(cores) => cores,
        None => 0,
    }
    &&& info.cpu_logical_cores == brands.len()
    &&& info.total_memory_mb == memory_bytes / 1048576
    &&& info.os_name@ == text_or_spec(os_name, "Unknown"@)
    &&& info.os_version@ == text_or_spec(os_version, "Unknown"@)
    &&& info.hostname@ == text_or_spec(hostname, "Unknown"@)
}

} // verus!
