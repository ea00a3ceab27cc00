//! Fingerprinting abstraction.
//!
//! A [`Fingerprinter`] turns a device's accumulated signals into a best-guess
//! *type* with a confidence and a short rationale.

use vstd::prelude::*;

use crate::registry::Device;

verus! {

/// Coarse device category, useful for UI grouping and anomaly baselining.
#[derive(Clone, Copy, PartialEq, Eq, Debug, Structural)]
pub enum Category {
    SmartSpeaker,
    MediaStreamer,
    SmartLight,
    Camera,
    Thermostat,
    Printer,
    Phone,
    Computer,
    SingleBoardComputer,
    Router,
    Nas,
    IoTSensor,
    Unknown,
}

pub open spec fn category_name(c: Category) -> &'static str {
    match c {
        Category::SmartSpeaker => "smart-speaker",
        Category::MediaStreamer => "media-streamer",
        Category::SmartLight => "smart-light",
        Category::Camera => "camera",
        Category::Thermostat => "thermostat",
        Category::Printer => "printer",
        Category::Phone => "phone",
        Category::Computer => "computer",
        Category::SingleBoardComputer => "sbc",
        Category::Router => "router",
        Category::Nas => "nas",
        Category::IoTSensor => "iot-sensor",
        Category::Unknown => "unknown",
    }
}

impl Category {
    pub fn as_str(self) -> (r: &'static str)
        ensures
            r == category_name(self),
    {
        match self {
            Category::SmartSpeaker => "smart-speaker",
            Category::MediaStreamer => "media-streamer",
            Category::SmartLight => "smart-light",
            Category::Camera => "camera",
            Category::Thermostat => "thermostat",
            Category::Printer => "printer",
            Category::Phone => "phone",
            Category::Computer => "computer",
            Category::SingleBoardComputer => "sbc",
            Category::Router => "router",
            Category::Nas => "nas",
            Category::IoTSensor => "iot-sensor",
            Category::Unknown => "unknown",
        }
    }
}

/// A classification result.
#[derive(Clone, Debug, PartialEq)]
pub struct Classification {
    pub device_type: String,
    pub category: Category,
    /// Confidence in hundredths (0–100).
    pub confidence_pct: u8,
    /// Which signal drove the match (for explainability).
    pub rationale: String,
}

/// The mathematical content of a [`Classification`].
pub struct ClassificationView {
    pub device_type: Seq<char>,
    pub category: Category,
    pub confidence_pct: u8,
    pub rationale: Seq<char>,
}

impl View for Classification {
    type V = ClassificationView;

    open spec fn view(&self) -> ClassificationView {
        ClassificationView {
            device_type: self.device_type@,
            category: self.category,
            confidence_pct: self.confidence_pct,
            rationale: self.rationale@,
        }
    }
}

/// Anything that can guess a device's type.
pub trait Fingerprinter {
    fn classify(&self, device: &Device) -> Option<Classification>;
}

} // verus!
