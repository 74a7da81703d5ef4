//! Configuration values that are not floating point, and the named presets.

use vstd::prelude::*;
use crate::text::{str_equal, to_lowercase, unicode_lowercase};

verus! {

/// Output image settings.
#[derive(Debug, Clone)]
pub struct OutputConfig {
    pub format: String,
    pub jpeg_quality: u8,
    pub flat_naming: bool,
}

/// Lens synchronisation settings.
#[derive(Debug, Clone, Copy)]
pub struct SyncConfig {
    pub max_lens_skew_ms: i64,
}

impl Default for SyncConfig {
    /// 50 ms of allowed skew between the two lenses.
    fn default() -> (c: Self)
        ensures
            c.max_lens_skew_ms == 50,
    {
        SyncConfig { max_lens_skew_ms: 50 }
    }
}

impl OutputConfig {
    /// JPEG at quality 95, frames in per-id directories.
    pub fn default_output() -> (c: Self)
        ensures
            c.format@ == "jpeg"@,
            c.jpeg_quality == 95,
            !c.flat_naming,
    {
        OutputConfig { format: String::from_str("jpeg"), jpeg_quality: 95, flat_naming: false }
    }
}

/// Named capture presets.
#[derive(Debug, Clone, Copy)]
pub enum Preset {
    IndoorWalk,
    OutdoorWalk,
    Vehicle,
    TripodPan,
    SlowSurvey,
    DenseReconstruction,
}

/// The selection settings a preset applies.
#[derive(Debug, Clone, Copy)]
pub struct PresetSettings {
    /// Rotation threshold in whole degrees.
    pub rotation_threshold_deg: u32,
    pub minimum_interval_ms: i64,
    pub maximum_interval_ms: i64,
    /// The preset switches visual (optical-flow) validation on; otherwise it leaves
    /// that setting as it was.
    pub enables_visual: bool,
}

/// The settings of each preset.
pub open spec fn preset_settings(p: Preset) -> PresetSettings {
    match p {
        Preset::IndoorWalk => PresetSettings {
            rotation_threshold_deg: 5,
            minimum_interval_ms: 300,
            maximum_interval_ms: 2500,
            enables_visual: false,
        },
        Preset::OutdoorWalk => PresetSettings {
            rotation_threshold_deg: 7,
            minimum_interval_ms: 400,
            maximum_interval_ms: 3000,
            enables_visual: false,
        },
        Preset::Vehicle => PresetSettings {
            rotation_threshold_deg: 8,
            minimum_interval_ms: 200,
            maximum_interval_ms: 1500,
            enables_visual: true,
        },
        Preset::TripodPan => PresetSettings {
            rotation_threshold_deg: 3,
            minimum_interval_ms: 200,
            maximum_interval_ms: 2000,
            enables_visual: false,
        },
        Preset::SlowSurvey => PresetSettings {
            rotation_threshold_deg: 3,
            minimum_interval_ms: 150,
            maximum_interval_ms: 1500,
            enables_visual: false,
        },
        Preset::DenseReconstruction => PresetSettings {
            rotation_threshold_deg: 2,
            minimum_interval_ms: 100,
            maximum_interval_ms: 1000,
            enables_visual: false,
        },
    }
}

/// The preset a lower-case name denotes; each accepts a hyphen or an underscore.
pub open spec fn preset_named(name: Seq<char>) -> Option<Preset> {
    if name == "indoor-walk"@ || name == "indoor_walk"@ {
        Some(Preset::IndoorWalk)
    } else if name == "outdoor-walk"@ || name == "outdoor_walk"@ {
        Some(Preset::OutdoorWalk)
    } else if name == "vehicle"@ {
        Some(Preset::Vehicle)
    } else if name == "tripod-pan"@ || name == "tripod_pan"@ {
        Some(Preset::TripodPan)
    } else if name == "slow-survey"@ || name == "slow_survey"@ {
        Some(Preset::SlowSurvey)
    } else if name == "dense-reconstruction"@ || name == "dense_reconstruction"@ {
        Some(Preset::DenseReconstruction)
    } else {
        None
    }
}

/// The command-line name of a preset, words joined by hyphens.
pub open spec fn preset_hyphen_name(p: Preset) -> Seq<char> {
    match p {
        Preset::IndoorWalk => "indoor-walk"@,
        Preset::OutdoorWalk => "outdoor-walk"@,
        Preset::Vehicle => "vehicle"@,
        Preset::TripodPan => "tripod-pan"@,
        Preset::SlowSurvey => "slow-survey"@,
        Preset::DenseReconstruction => "dense-reconstruction"@,
    }
}

/// The command-line name of a preset, words joined by underscores.
pub open spec fn preset_underscore_name(p: Preset) -> Seq<char> {
    match p {
        Preset::IndoorWalk => "indoor_walk"@,
        Preset::OutdoorWalk => "outdoor_walk"@,
        Preset::Vehicle => "vehicle"@,
        Preset::TripodPan => "tripod_pan"@,
        Preset::SlowSurvey => "slow_survey"@,
        Preset::DenseReconstruction => "dense_reconstruction"@,
    }
}

/// `s` with every hyphen replaced by an underscore.
pub open spec fn underscored(s: Seq<char>) -> Seq<char> {
    s.map_values(|c: char| if c == '-' { '_' } else { c })
}

/// Every preset is named by its hyphenated and by its underscored name, which differ
/// only in the separator.
pub proof fn lemma_preset_names_accepted(p: Preset)
    ensures
        preset_named(preset_hyphen_name(p)) == Some(p),
        preset_named(preset_underscore_name(p)) == Some(p),
        preset_underscore_name(p) == underscored(preset_hyphen_name(p)),
{
    reveal_strlit("dense-reconstruction");
    reveal_strlit("dense_reconstruction");
    reveal_strlit("indoor-walk");
    reveal_strlit("indoor_walk");
    reveal_strlit("outdoor-walk");
    reveal_strlit("outdoor_walk");
    reveal_strlit("slow-survey");
    reveal_strlit("slow_survey");
    reveal_strlit("tripod-pan");
    reveal_strlit("tripod_pan");
    reveal_strlit("vehicle");
    // the names start with six different letters
    assert("dense-reconstruction"@[0] == 'd');
    assert("dense_reconstruction"@[0] == 'd');
    assert("indoor-walk"@[0] == 'i');
    assert("indoor_walk"@[0] == 'i');
    assert("outdoor-walk"@[0] == 'o');
    assert("outdoor_walk"@[0] == 'o');
    assert("slow-survey"@[0] == 's');
    assert("slow_survey"@[0] == 's');
    assert("tripod-pan"@[0] == 't');
    assert("tripod_pan"@[0] == 't');
    assert("vehicle"@[0] == 'v');
    assert(underscored(preset_hyphen_name(p)) =~= preset_underscore_name(p));
}

/// No other name denotes a preset: a name that parses to `p` is one of its two names.
pub proof fn lemma_preset_names_only(s: Seq<char>, p: Preset)
    requires
        preset_named(s) == Some(p),
    ensures
        s == preset_hyphen_name(p) || s == preset_underscore_name(p),
{
}

impl Preset {
    /// The selection settings this preset applies.
    pub fn settings(&self) -> (s: PresetSettings)
        ensures
            s == preset_settings(*self),
    {
        match self {
            Preset::IndoorWalk => PresetSettings {
                rotation_threshold_deg: 5,
                minimum_interval_ms: 300,
                maximum_interval_ms: 2500,
                enables_visual: false,
            },
            Preset::OutdoorWalk => PresetSettings {
                rotation_threshold_deg: 7,
                minimum_interval_ms: 400,
                maximum_interval_ms: 3000,
                enables_visual: false,
            },
            Preset::Vehicle => PresetSettings {
                rotation_threshold_deg: 8,
                minimum_interval_ms: 200,
                maximum_interval_ms: 1500,
                enables_visual: true,
            },
            Preset::TripodPan => PresetSettings {
                rotation_threshold_deg: 3,
                minimum_interval_ms: 200,
                maximum_interval_ms: 2000,
                enables_visual: false,
            },
            Preset::SlowSurvey => PresetSettings {
                rotation_threshold_deg: 3,
                minimum_interval_ms: 150,
                maximum_interval_ms: 1500,
                enables_visual: false,
            },
            Preset::DenseReconstruction => PresetSettings {
                rotation_threshold_deg: 2,
                minimum_interval_ms: 100,
                maximum_interval_ms: 1000,
                enables_visual: false,
            },
        }
    }

    /// The preset a name denotes, compared exactly (the name is expected in lower case).
    pub fn from_lowercase_name(name: &str) -> (r: Option<Self>)
        ensures
            r == preset_named(name@),
    {
        if str_equal(name, "indoor-walk") || str_equal(name, "indoor_walk") {
            Some(Preset::IndoorWalk)
        } else if str_equal(name, "outdoor-walk") || str_equal(name, "outdoor_walk") {
            Some(Preset::OutdoorWalk)
        } else if str_equal(name, "vehicle") {
            Some(Preset::Vehicle)
        } else if str_equal(name, "tripod-pan") || str_equal(name, "tripod_pan") {
            Some(Preset::TripodPan)
        } else if str_equal(name, "slow-survey") || str_equal(name, "slow_survey") {
            Some(Preset::SlowSurvey)
        } else if str_equal(name, "dense-reconstruction") || str_equal(name, "dense_reconstruction") {
            Some(Preset::DenseReconstruction)
        } else {
            None
        }
    }

    /// Parses a preset name in any letter case.
    pub fn parse(s: &str) -> (r: Option<Self>)
        ensures
            r == preset_named(unicode_lowercase(s@)),
    {
        let lower = to_lowercase(s);
        Self::from_lowercase_name(lower.as_str())
    }
}

} // verus!
