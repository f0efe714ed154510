//! The settings of a run: what to sample, how often, and where to send it.
//! They are loaded once and only read afterwards.
use crate::json_ptr::JsonPtr;
use vstd::prelude::*;

verus! {

/// One named extraction rule.
#[derive(Debug, Default)]
pub struct ValueMapping {
    /// Name of the value
    pub name: String,
    /// Path to the value (see [`JsonPtr`])
    pub path: JsonPtr,
}

/// A pair attached to every point of a source.
#[derive(Debug, Default)]
pub struct Tag {
    /// Tag name
    pub name: String,
    /// Tag value
    pub value: String,
}

impl Clone for Tag {
    fn clone(&self) -> (r: Tag)
        ensures
            r == *self,
    {
        Tag { name: self.name.clone(), value: self.value.clone() }
    }
}

#[derive(Debug, Default)]
pub struct InfluxConf {
    /// Host where InfluxDB is running.
    pub host: String,
    /// Organisation for data insertion.
    pub org: String,
    /// Bucket for data insertion.
    pub bucket: String,
    /// Token for data insertion.
    pub token: String,
}

#[derive(Debug, Default)]
pub struct IntelGpuTopConf {
    /// Enable or disable collecting GPU usage
    pub enabled: bool,
    /// Tags to use when writing to Influx
    pub tags: Vec<Tag>,
    /// Device identifier (see `intel_gpu_top -h`)
    pub device: String,
    /// List of values to extract
    pub values: Vec<ValueMapping>,
}

#[derive(Debug, Default)]
pub struct SensorsConf {
    /// Enable or disable collecting temperatures
    pub enabled: bool,
    /// Tags to use when writing to Influx
    pub tags: Vec<Tag>,
    /// List of values to extract
    pub values: Vec<ValueMapping>,
}

#[derive(Debug, Default)]
pub struct Conf {
    /// Delay between each sample.
    pub sample_interval_ms: u64,
    /// Number of samples to average over before sending to Influx.
    pub sample_count: u64,
    /// Connection to InfluxDB
    pub influx: Option<InfluxConf>,
    /// Enable collecting and submitting CPU temperature data.
    pub sensors: SensorsConf,
    /// Enable collecting and submitting GPU usage data.
    pub intel_gpu_top: IntelGpuTopConf,
}

/// What can be wrong with a configuration, in the order in which it is looked
/// for.
pub enum Violation {
    AllCollectorsDisabled,
    SampleCountZero,
    SampleIntervalZero,
}

/// The message for a violation.
pub open spec fn violation_text(violation: Violation) -> Seq<char> {
    match violation {
        Violation::AllCollectorsDisabled => "all collectors disabled"@,
        Violation::SampleCountZero => "sample count is zero"@,
        Violation::SampleIntervalZero => "sample interval is zero"@,
    }
}

impl Conf {
    /// How many sources are enabled.
    pub open spec fn enabled_sources(&self) -> nat {
        (if self.sensors.enabled {
            1nat
        } else {
            0nat
        }) + (if self.intel_gpu_top.enabled {
            1nat
        } else {
            0nat
        })
    }

    /// Counts the enabled sources.
    pub fn enabled_count(&self) -> (r: usize)
        ensures
            r == self.enabled_sources(),
    {
        let mut count: usize = 0;
        if self.sensors.enabled {
            count = count + 1;
        }
        if self.intel_gpu_top.enabled {
            count = count + 1;
        }
        count
    }

    /// The first thing wrong with this configuration, if anything is: no source
    /// is enabled, or no samples are asked for, or the interval is zero.
    pub open spec fn violation(&self) -> Option<Violation> {
        if !(self.sensors.enabled || self.intel_gpu_top.enabled) {
            Some(Violation::AllCollectorsDisabled)
        } else if self.sample_count == 0 {
            Some(Violation::SampleCountZero)
        } else if self.sample_interval_ms == 0 {
            Some(Violation::SampleIntervalZero)
        } else {
            None
        }
    }

    /// Check for invalid configuration.
    ///
    /// Returns an error message if the config is invalid.
    pub fn validate(&self) -> (r: Option<&'static str>)
        ensures
            r is None <==> self.violation() is None,
            r matches Some(message) ==> message@ == violation_text(self.violation()->0),
            r is None ==> self.enabled_sources() >= 1 && self.sample_count >= 1
                && self.sample_interval_ms >= 1,
    {
        if !(self.sensors.enabled || self.intel_gpu_top.enabled) {
            Some("all collectors disabled")
        } else if self.sample_count == 0 {
            Some("sample count is zero")
        } else if self.sample_interval_ms == 0 {
            Some("sample interval is zero")
        } else {
            None
        }
    }
}

} // verus!
