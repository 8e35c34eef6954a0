//! The sampler that records what takes the machine's memory.

use vstd::prelude::*;

use crate::paths;
use crate::text;

verus! {

/// How many seconds are between two samples where nobody says otherwise.
pub const DEFAULT_INTERVAL_SECS: u32 = 20;

/// Where the sampler is, seen from the sources.
pub fn script_path(source_dir: &str) -> (r: String)
    ensures
        r@ == paths::join(source_dir@, "../scripts/memwatch.sh"@),
{
    paths::joined(source_dir, "../scripts/memwatch.sh")
}

/// How many seconds are between two samples, by the value of a variable; `None`
/// where there are to be none.
pub fn interval_from_env(value: Option<&str>) -> (r: Option<u32>)
    ensures
        r == match value {
            None => Some(DEFAULT_INTERVAL_SECS),
            Some(v) => if text::ascii_lower(v@) == "off"@ {
                None
            } else {
                match text::parse_uint(v@, u32::MAX as nat) {
                    Some(n) => if n > 0 {
                        Some(n as u32)
                    } else {
                        Some(DEFAULT_INTERVAL_SECS)
                    },
                    None => Some(DEFAULT_INTERVAL_SECS),
                }
            },
        },
{
    let v = match value {
        Some(v) => v,
        None => {
            return Some(DEFAULT_INTERVAL_SECS);
        },
    };
    if text::same(&text::ascii_lowered(v), "off") {
        return None;
    }
    match text::parsed_uint(v, u32::MAX as u64) {
        Some(n) => if n > 0 {
            Some(n as u32)
        } else {
            Some(DEFAULT_INTERVAL_SECS)
        },
        None => Some(DEFAULT_INTERVAL_SECS),
    }
}

} // verus!
