//! A point-in-time snapshot of host system characteristics: logical CPU
//! count, OS family and version, CPU architecture, and total/available
//! physical memory.
//!
//! The snapshot itself is assembled by [`SystemInfo::from_parts`] from plain
//! values that the caller gathers from the host (a parallelism hint, the OS
//! and architecture constants, and the raw text of the two Linux pseudo-files
//! that report the distribution name and the memory counters). All parsing
//! and assembly logic lives here and is verified; reading the host state is
//! the caller's concern.

pub mod meminfo;
pub mod os_release;
pub mod text;

use vstd::prelude::*;

pub use meminfo::{memory_from, parse_meminfo_line, spec_memory, spec_parse_meminfo_line};
pub use os_release::{os_version_from, spec_os_version};
pub use text::spec_opt_chars;

verus! {

/// System information for monitoring and optimization.
#[derive(Debug, Clone)]
pub struct SystemInfo {
    pub cpu_count: usize,
    pub os: String,
    pub os_version: String,
    pub arch: String,
    pub total_memory: u64,
    pub available_memory: u64,
}

/// The mathematical content of a [`SystemInfo`] record: each string as a
/// sequence of characters, the counts as integers.
pub ghost struct SystemInfoModel {
    pub cpu_count: int,
    pub os: Seq<char>,
    pub os_version: Seq<char>,
    pub arch: Seq<char>,
    pub total_memory: u64,
    pub available_memory: u64,
}

impl View for SystemInfo {
    type V = SystemInfoModel;

    open spec fn view(&self) -> SystemInfoModel {
        SystemInfoModel {
            cpu_count: self.cpu_count as int,
            os: self.os@,
            os_version: self.os_version@,
            arch: self.arch@,
            total_memory: self.total_memory,
            available_memory: self.available_memory,
        }
    }
}

/// The CPU count recorded for a given parallelism hint: the reported count,
/// with a floor of one; one when the host could not report it.
pub open spec fn spec_cpu_count(parallelism: Option<usize>) -> usize {
    match parallelism {
        Some(n) => if n >= 1 { n } else { 1 },
        None => 1,
    }
}

impl SystemInfo {
    /// Every well-formed snapshot has at least one CPU and a non-empty OS
    /// family name.
    pub open spec fn wf(self) -> bool {
        &&& self.cpu_count >= 1
        &&& self.os@.len() > 0
    }

    /// The CPU count recorded for a given parallelism hint.
    pub fn cpu_count_from(parallelism: Option<usize>) -> (r: usize)
        ensures
            r == spec_cpu_count(parallelism),
            r >= 1,
    {
        match parallelism {
            Some(n) => if n >= 1 { n } else { 1 },
            None => 1,
        }
    }

    /// One snapshot, assembled from the plain values a caller gathered from
    /// the host: the runtime's parallelism hint (`None` when the host could
    /// not report one), the OS family and architecture constants, whether
    /// the host is the Linux target, and the raw text of the os-release
    /// descriptor and of the memory statistics (`None` for a file that
    /// could not be read).
    pub fn from_parts(
        parallelism: Option<usize>,
        os: &str,
        arch: &str,
        linux: bool,
        descriptor: Option<&str>,
        statistics: Option<&str>,
    ) -> (r: SystemInfo)
        requires
            os@.len() > 0,
        ensures
            r@ == spec_snapshot(
                parallelism,
                os@,
                arch@,
                linux,
                spec_opt_chars(descriptor),
                spec_opt_chars(statistics),
            ),
            r.wf(),
    {
        let cpu_count = Self::cpu_count_from(parallelism);
        let os_version = os_version_from(linux, descriptor);
        let memory = memory_from(linux, statistics);
        SystemInfo {
            cpu_count,
            os: os.to_owned(),
            os_version,
            arch: arch.to_owned(),
            total_memory: memory.0,
            available_memory: memory.1,
        }
    }
}

/// The snapshot that a host with the given facts yields: each field a
/// function of the inputs alone.
pub open spec fn spec_snapshot(
    parallelism: Option<usize>,
    os: Seq<char>,
    arch: Seq<char>,
    linux: bool,
    descriptor: Option<Seq<char>>,
    statistics: Option<Seq<char>>,
) -> SystemInfoModel {
    SystemInfoModel {
        cpu_count: spec_cpu_count(parallelism) as int,
        os: os,
        os_version: spec_os_version(linux, descriptor),
        arch: arch,
        total_memory: spec_memory(linux, statistics).0,
        available_memory: spec_memory(linux, statistics).1,
    }
}

/// A snapshot records at least one CPU, whatever the host reported.
pub proof fn lemma_snapshot_cpu_positive(
    parallelism: Option<usize>,
    os: Seq<char>,
    arch: Seq<char>,
    linux: bool,
    descriptor: Option<Seq<char>>,
    statistics: Option<Seq<char>>,
)
    ensures
        spec_snapshot(parallelism, os, arch, linux, descriptor, statistics).cpu_count >= 1,
{
}

/// On a machine whose OS and hardware state is unchanged, two snapshots
/// agree on the OS family, the architecture and the CPU count, however the
/// two pseudo-files read at each call — the memory figures may vary freely
/// between calls.
pub proof fn lemma_snapshot_stable_fields(
    parallelism: Option<usize>,
    os: Seq<char>,
    arch: Seq<char>,
    linux: bool,
    d1: Option<Seq<char>>,
    m1: Option<Seq<char>>,
    d2: Option<Seq<char>>,
    m2: Option<Seq<char>>,
)
    ensures
        spec_snapshot(parallelism, os, arch, linux, d1, m1).cpu_count == spec_snapshot(
            parallelism,
            os,
            arch,
            linux,
            d2,
            m2,
        ).cpu_count,
        spec_snapshot(parallelism, os, arch, linux, d1, m1).os == spec_snapshot(
            parallelism,
            os,
            arch,
            linux,
            d2,
            m2,
        ).os,
        spec_snapshot(parallelism, os, arch, linux, d1, m1).arch == spec_snapshot(
            parallelism,
            os,
            arch,
            linux,
            d2,
            m2,
        ).arch,
{
}

} // verus!
