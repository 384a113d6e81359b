//! Stored samples and the selection of one metric out of a sample.
//!
//! Metric values are carried as the IEEE-754 binary64 bit patterns of the
//! measured numbers: the library selects, groups and orders them but never
//! does arithmetic on them.

use vstd::prelude::*;
use vstd::string::*;
use crate::text::str_equal;

verus! {

/// The metrics that a sample records.
#[derive(Clone, Copy, Debug, PartialEq, Eq, Structural)]
pub enum Metric {
    Cpu,
    Disk,
    Ram,
    Temperature,
    Upload,
    Download,
}

/// The metric that a name designates ("cpu", "disk", "ram", "temperature",
/// "upload", "download"), or `None` for any other name.
pub open spec fn metric_of_name(name: Seq<char>) -> Option<Metric> {
    if name == "cpu"@ {
        Some(Metric::Cpu)
    } else if name == "disk"@ {
        Some(Metric::Disk)
    } else if name == "ram"@ {
        Some(Metric::Ram)
    } else if name == "temperature"@ {
        Some(Metric::Temperature)
    } else if name == "upload"@ {
        Some(Metric::Upload)
    } else if name == "download"@ {
        Some(Metric::Download)
    } else {
        None
    }
}

/// Looks a metric up by its name.
pub fn metric_from_name(name: &str) -> (res: Option<Metric>)
    ensures
        res == metric_of_name(name@),
{
    if str_equal(name, "cpu") {
        Some(Metric::Cpu)
    } else if str_equal(name, "disk") {
        Some(Metric::Disk)
    } else if str_equal(name, "ram") {
        Some(Metric::Ram)
    } else if str_equal(name, "temperature") {
        Some(Metric::Temperature)
    } else if str_equal(name, "upload") {
        Some(Metric::Upload)
    } else if str_equal(name, "download") {
        Some(Metric::Download)
    } else {
        None
    }
}

/// One stored sample. Every metric field holds the binary64 bit pattern of
/// the measured value; a temperature of -1.0 means that no sensor was read.
#[derive(Clone, Copy, Debug, PartialEq, Eq, Structural)]
pub struct RawDataPoint {
    pub id: i64,
    pub timestamp: i64,
    pub cpu: u64,
    pub disk: u64,
    pub ram: u64,
    pub temperature: u64,
    pub upload: u64,
    pub download: u64,
}

impl RawDataPoint {
    /// The bit pattern stored for a metric; no metric gives 0, the pattern of +0.0.
    pub open spec fn metric_bits(self, metric: Option<Metric>) -> u64 {
        match metric {
            Some(Metric::Cpu) => self.cpu,
            Some(Metric::Disk) => self.disk,
            Some(Metric::Ram) => self.ram,
            Some(Metric::Temperature) => self.temperature,
            Some(Metric::Upload) => self.upload,
            Some(Metric::Download) => self.download,
            None => 0,
        }
    }

    /// The value of the metric named `metric`, or +0.0 for an unknown name.
    pub fn get_metric(&self, metric: &str) -> (v: u64)
        ensures
            v == self.metric_bits(metric_of_name(metric@)),
    {
        match metric_from_name(metric) {
            Some(Metric::Cpu) => self.cpu,
            Some(Metric::Disk) => self.disk,
            Some(Metric::Ram) => self.ram,
            Some(Metric::Temperature) => self.temperature,
            Some(Metric::Upload) => self.upload,
            Some(Metric::Download) => self.download,
            None => 0,
        }
    }
}

/// Law: each metric name reads the field of the same name, and any other
/// name reads +0.0 (pattern 0), for every sample.
pub proof fn law_metric_names_select_their_fields(p: RawDataPoint, other: Seq<char>)
    requires
        other != "cpu"@,
        other != "disk"@,
        other != "ram"@,
        other != "temperature"@,
        other != "upload"@,
        other != "download"@,
    ensures
        p.metric_bits(metric_of_name("cpu"@)) == p.cpu,
        p.metric_bits(metric_of_name("disk"@)) == p.disk,
        p.metric_bits(metric_of_name("ram"@)) == p.ram,
        p.metric_bits(metric_of_name("temperature"@)) == p.temperature,
        p.metric_bits(metric_of_name("upload"@)) == p.upload,
        p.metric_bits(metric_of_name("download"@)) == p.download,
        p.metric_bits(metric_of_name(other)) == 0,
        p.metric_bits(Some(Metric::Cpu)) == p.cpu,
        p.metric_bits(Some(Metric::Disk)) == p.disk,
        p.metric_bits(Some(Metric::Ram)) == p.ram,
        p.metric_bits(Some(Metric::Temperature)) == p.temperature,
        p.metric_bits(Some(Metric::Upload)) == p.upload,
        p.metric_bits(Some(Metric::Download)) == p.download,
{
    reveal_strlit("cpu");
    reveal_strlit("disk");
    reveal_strlit("ram");
    reveal_strlit("temperature");
    reveal_strlit("upload");
    reveal_strlit("download");
    assert("cpu"@.len() == 3 && "cpu"@[0] == 'c');
    assert("disk"@.len() == 4);
    assert("ram"@.len() == 3 && "ram"@[0] == 'r');
    assert("temperature"@.len() == 11);
    assert("upload"@.len() == 6);
    assert("download"@.len() == 8);
}

} // verus!
