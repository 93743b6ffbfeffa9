//! Settings read from the YAML configuration: the memory the engine may use
//! and its evaluation weights, with the fallbacks used when the file is
//! missing or does not say.
use vstd::prelude::*;

verus! {

use crate::heuristics::HeuristicParams;

/// What serde_yaml reads from `text` at the top-level key `key`: `None` when
/// `text` does not parse as YAML, `Some(None)` when the document is not a
/// mapping, has no such key, or maps it to something other than an integer
/// that fits an `i64`, and `Some(Some(v))` for such an integer `v`.
pub uninterp spec fn yaml_integer_at(text: Seq<char>, key: Seq<char>) -> Option<Option<i64>>;

/// serde_yaml's `from_str::<Value>` on `text`, then `Value::get(key)` and
/// `Value::as_i64` on what it finds: the result is the one named
/// `yaml_integer_at`; nothing more is stated of YAML parsing.
#[verifier::external_body]
fn yaml_integer(text: &str, key: &str) -> (r: Option<Option<i64>>)
    ensures
        r == yaml_integer_at(text@, key@),
{
    match serde_yaml::from_str::<serde_yaml::Value>(text) {
        Ok(doc) => Some(doc.get(key).and_then(serde_yaml::Value::as_i64)),
        Err(_) => None,
    }
}

/// The memory (MB) assumed when the configuration file cannot be read.
pub const NO_FILE_MEMORY_MB: usize = 20480;

/// The memory (MB) assumed when the file gives no usable value.
pub const DEFAULT_MEMORY_MB: usize = 2048;

/// A setting below this is read as gigabytes, otherwise as megabytes.
pub const GIGABYTE_LIMIT: i64 = 128;

/// Whether a parsed setting can be turned into megabytes without overflow:
/// a small value is multiplied by 1024 within `i64`.
pub open spec fn setting_fits(parsed: Option<Option<i64>>) -> bool {
    parsed matches Some(Some(v)) ==> (v < 128 ==> v * 1024 >= i64::MIN)
}

/// The memory in megabytes a parsed setting stands for: the default when
/// the document did not parse or holds no integer; a value below 128 is
/// taken as gigabytes (times 1024), any other as megabytes. A negative
/// result wraps, as a cast to `usize` does.
pub open spec fn memory_of(parsed: Option<Option<i64>>) -> usize {
    match parsed {
        Some(Some(v)) => if v < 128 {
            (v * 1024) as usize
        } else {
            v as usize
        },
        _ => 2048,
    }
}

/// The memory in megabytes a parsed `available_memory` setting stands for.
pub fn available_memory_from_setting(parsed: Option<Option<i64>>) -> (r: usize)
    requires
        setting_fits(parsed),
    ensures
        r == memory_of(parsed),
{
    match parsed {
        Some(Some(v)) => if v < GIGABYTE_LIMIT {
            (v * 1024) as usize
        } else {
            v as usize
        },
        _ => DEFAULT_MEMORY_MB,
    }
}

/// The memory (MB) the engine may use, from the configuration text (`None`
/// when the file could not be read): 20480 without a file, otherwise the
/// `available_memory` setting read as `available_memory_from_setting` does.
/// `None` when that setting is so negative that counting it in megabytes
/// overflows.
pub fn load_available_memory_from_config(contents: Option<&str>) -> (r: Option<usize>)
    ensures
        contents is None ==> r == Some(20480usize),
        contents matches Some(text) ==> r == (if setting_fits(yaml_integer_at(text@, "available_memory"@)) {
            Some(memory_of(yaml_integer_at(text@, "available_memory"@)))
        } else {
            None
        }),
{
    match contents {
        None => Some(NO_FILE_MEMORY_MB),
        Some(text) => {
            let parsed = yaml_integer(text, "available_memory");
            let fits = match parsed {
                Some(Some(v)) => v >= GIGABYTE_LIMIT || v >= i64::MIN / 1024,
                _ => true,
            };
            if fits {
                Some(available_memory_from_setting(parsed))
            } else {
                None
            }
        },
    }
}

/// The evaluation weights: those read from the `heuristics` section when
/// there were any, the defaults otherwise.
pub fn heuristics_or_default(parsed: Option<HeuristicParams>) -> (r: HeuristicParams)
    ensures
        parsed matches Some(p) ==> r == p,
        parsed is None ==> r.two_middle_pawns_weight == 10 && r.castling_weight == 10
            && r.development_weight == 10 && r.mobility_weight == 10 && r.knight_outpost_weight
            == 10,
{
    match parsed {
        Some(p) => p,
        None => HeuristicParams::default(),
    }
}

} // verus!
