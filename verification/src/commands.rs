//! What the user interface's commands compute: the loop mode named in a command,
//! and the answer to a command that opened a file.
use vstd::prelude::*;
use vstd::string::*;
use crate::playlist::LoopMode;
use crate::player::FileMetadata;

verus! {

/// The answer to a command that opened a file.
#[derive(Debug, Clone)]
pub struct FileMetadataResponse {
    pub path: String,
    pub duration_ms: u64,
    pub sample_rate: u32,
    pub channels: u16,
    pub device_sample_rate: u32,
}

impl FileMetadataResponse {
    /// The answer for a file with metadata `meta`.
    pub fn from_metadata(meta: FileMetadata) -> (response: FileMetadataResponse)
        ensures
            response.path == meta.path,
            response.duration_ms == meta.duration_ms,
            response.sample_rate == meta.file_sample_rate,
            response.channels == meta.file_channels,
            response.device_sample_rate == meta.device_sample_rate,
    {
        FileMetadataResponse {
            path: meta.path,
            duration_ms: meta.duration_ms,
            sample_rate: meta.file_sample_rate,
            channels: meta.file_channels,
            device_sample_rate: meta.device_sample_rate,
        }
    }
}

/// Two texts are equal.
pub fn str_equal(a: &str, b: &str) -> (equal: bool)
    ensures
        equal == (a@ == b@),
{
    a.to_owned() == b.to_owned()
}

/// The name under which the user interface knows each loop mode.
pub open spec fn loop_mode_name(mode: LoopMode) -> Seq<char> {
    match mode {
        LoopMode::Off => "none"@,
        LoopMode::Single => "single"@,
        LoopMode::List => "list"@,
    }
}

/// The loop mode that a name denotes, if any.
pub open spec fn spec_parse_loop_mode(name: Seq<char>) -> Option<LoopMode> {
    if name == "none"@ {
        Some(LoopMode::Off)
    } else if name == "single"@ {
        Some(LoopMode::Single)
    } else if name == "list"@ {
        Some(LoopMode::List)
    } else {
        None
    }
}

/// The error answered for an unknown loop mode name.
pub open spec fn msg_invalid_loop_mode(name: Seq<char>) -> Seq<char> {
    "Invalid loop mode: "@ + name
}

/// The loop mode that `name` denotes ("none", "single" or "list"); any other name is an
/// error that quotes it.
pub fn parse_loop_mode(name: &str) -> (mode: Result<LoopMode, String>)
    ensures
        match mode {
            Ok(m) => spec_parse_loop_mode(name@) == Some(m),
            Err(msg) => spec_parse_loop_mode(name@) is None && msg@ == msg_invalid_loop_mode(name@),
        },
{
    if str_equal(name, "none") {
        Ok(LoopMode::Off)
    } else if str_equal(name, "single") {
        Ok(LoopMode::Single)
    } else if str_equal(name, "list") {
        Ok(LoopMode::List)
    } else {
        Err(String::from_str("Invalid loop mode: ").concat(name))
    }
}

/// The names of the loop modes are told apart.
proof fn lemma_loop_mode_names_distinct()
    ensures
        "none"@ != "single"@,
        "none"@ != "list"@,
        "single"@ != "list"@,
{
    reveal_strlit("none");
    reveal_strlit("single");
    reveal_strlit("list");
    assert("none"@.len() != "single"@.len());
    assert("none"@[0] != "list"@[0]);
    assert("single"@.len() != "list"@.len());
}

/// Parsing the name of a loop mode gives that mode back.
pub proof fn law_parse_loop_mode_name(mode: LoopMode)
    ensures
        spec_parse_loop_mode(loop_mode_name(mode)) == Some(mode),
{
    lemma_loop_mode_names_distinct();
}

} // verus!
