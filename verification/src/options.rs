//! What is asked of a description.

use vstd::prelude::*;

use crate::text::same;

verus! {

/// The format in which a description is written.
#[derive(Clone, Copy, Debug, PartialEq, Eq, Structural)]
pub enum TargetFormat {
    Json,
    Yaml,
}

impl Default for TargetFormat {
    fn default() -> (r: Self)
        ensures
            r == TargetFormat::Yaml,
    {
        TargetFormat::Yaml
    }
}

/// The format of that name.
pub open spec fn format_named(name: Seq<char>) -> Option<TargetFormat> {
    if name == "json"@ {
        Some(TargetFormat::Json)
    } else if name == "yaml"@ {
        Some(TargetFormat::Yaml)
    } else {
        None
    }
}

impl std::str::FromStr for TargetFormat {
    type Err = &'static str;

    fn from_str(s: &str) -> (r: Result<Self, Self::Err>)
        ensures
            match r {
                Ok(format) => format_named(s@) == Some(format),
                Err(e) => format_named(s@) is None && e@ == "invalid format"@,
            },
    {
        if same(s, "json") {
            Ok(TargetFormat::Json)
        } else if same(s, "yaml") {
            Ok(TargetFormat::Yaml)
        } else {
            Err("invalid format")
        }
    }
}

/// What is asked of a description.
pub struct TranspileOptions {
    /// The format in which it is written.
    pub format: TargetFormat,
}

impl Default for TranspileOptions {
    fn default() -> (r: Self)
        ensures
            r.format == TargetFormat::Yaml,
    {
        TranspileOptions { format: TargetFormat::default() }
    }
}

} // verus!
