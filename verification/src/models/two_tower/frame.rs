//! The frame of a two-tower model file: a magic, a version, and two sections with their lengths in
//! front.

use crate::text::{decimal, decimal_text, join, joined};
use vstd::bytes::{
    lemma_auto_spec_u32_to_from_le_bytes, lemma_auto_spec_u64_to_from_le_bytes,
    spec_u32_from_le_bytes, spec_u32_to_le_bytes, spec_u64_from_le_bytes, spec_u64_to_le_bytes,
    u32_from_le_bytes, u32_to_le_bytes, u64_from_le_bytes, u64_to_le_bytes,
};
use vstd::prelude::*;
use vstd::slice::slice_subrange;

verus! {

/// The version of the format.
pub const FORMAT_VERSION: u32 = 5;

/// The first bytes of every file: `FTWO`.
pub open spec fn magic() -> Seq<u8> {
    seq![70u8, 84u8, 87u8, 79u8]
}

/// Why a file is not a model of this format.
#[derive(Debug, Clone, Copy, PartialEq, Eq, Structural)]
pub enum FrameError {
    /// The file has no room for the magic and the version.
    TooSmall,
    /// The file starts with other bytes.
    BadMagic,
    /// The file has an earlier version, which cannot be upgraded.
    OldVersion { version: u32 },
    /// The file has a later version.
    UnsupportedVersion { version: u32 },
    /// A section ends behind the end of the file.
    Truncated,
}

/// The text of a frame error for the file at `path`.
pub open spec fn frame_message(error: FrameError, path: Seq<char>) -> Seq<char> {
    match error {
        FrameError::TooSmall => "file too small to be a Two-Tower model: "@ + path,
        FrameError::BadMagic => "invalid magic in "@ + path + " (expected FTWO header)"@,
        FrameError::OldVersion { version } => "Two-Tower model file "@ + path + " is format v"@
            + decimal_text(version as nat)
            + ", but this build requires v5. v5 persists the user-side feature-name → index maps (#55) that v4 discarded — they can't be reconstructed without retraining since the train-time feature names aren't recorded anywhere else. v4 itself reserves a learnable cold-start user row and renumbers all user indices vs v3. Retrain the model to upgrade."@,
        FrameError::UnsupportedVersion { version } => "unsupported Two-Tower format version "@
            + decimal_text(version as nat) + " (expected 5)"@,
        FrameError::Truncated => "truncated or corrupt Two-Tower model file: "@ + path,
    }
}

impl FrameError {
    /// A description for the caller.
    pub fn message(&self, path: &str) -> (text: String)
        ensures
            text@ == frame_message(*self, path@),
    {
        match self {
            FrameError::TooSmall => {
                let parts: [&str; 2] = ["file too small to be a Two-Tower model: ", path];
                proof {
                    reveal_with_fuel(joined, 3);
                    assert(joined(parts@) =~= frame_message(*self, path@));
                }
                join(&parts)
            },
            FrameError::BadMagic => {
                let parts: [&str; 3] = ["invalid magic in ", path, " (expected FTWO header)"];
                proof {
                    reveal_with_fuel(joined, 4);
                    assert(joined(parts@) =~= frame_message(*self, path@));
                }
                join(&parts)
            },
            FrameError::OldVersion { version } => {
                let found = decimal(*version as u64);
                let parts: [&str; 5] = [
                    "Two-Tower model file ",
                    path,
                    " is format v",
                    found.as_str(),
                    ", but this build requires v5. v5 persists the user-side feature-name → index maps (#55) that v4 discarded — they can't be reconstructed without retraining since the train-time feature names aren't recorded anywhere else. v4 itself reserves a learnable cold-start user row and renumbers all user indices vs v3. Retrain the model to upgrade.",
                ];
                proof {
                    reveal_with_fuel(joined, 6);
                    assert(joined(parts@) =~= frame_message(*self, path@));
                }
                join(&parts)
            },
            FrameError::UnsupportedVersion { version } => {
                let found = decimal(*version as u64);
                let parts: [&str; 3] = [
                    "unsupported Two-Tower format version ",
                    found.as_str(),
                    " (expected 5)",
                ];
                proof {
                    reveal_with_fuel(joined, 4);
                    assert(joined(parts@) =~= frame_message(*self, path@));
                }
                join(&parts)
            },
            FrameError::Truncated => {
                let parts: [&str; 2] = ["truncated or corrupt Two-Tower model file: ", path];
                proof {
                    reveal_with_fuel(joined, 3);
                    assert(joined(parts@) =~= frame_message(*self, path@));
                }
                join(&parts)
            },
        }
    }
}

/// A section of a file, and where the bytes behind it start.
pub struct Section {
    pub bytes: Vec<u8>,
    pub next: usize,
}

/// `bytes` with their number in front.
pub open spec fn prefixed(bytes: Seq<u8>) -> Seq<u8> {
    spec_u64_to_le_bytes(bytes.len() as u64) + bytes
}

/// A model file.
pub open spec fn framed(meta: Seq<u8>, weights: Seq<u8>) -> Seq<u8> {
    magic() + spec_u32_to_le_bytes(FORMAT_VERSION) + prefixed(meta) + prefixed(weights)
}

/// The error of a file's header, if it has one.
pub open spec fn header_error(data: Seq<u8>) -> Option<FrameError> {
    if data.len() < 8 {
        Some(FrameError::TooSmall)
    } else if data.take(4) != magic() {
        Some(FrameError::BadMagic)
    } else {
        let version = spec_u32_from_le_bytes(data.subrange(4, 8));
        if version < FORMAT_VERSION {
            Some(FrameError::OldVersion { version })
        } else if version > FORMAT_VERSION {
            Some(FrameError::UnsupportedVersion { version })
        } else {
            None
        }
    }
}

/// The number of bytes of the section at `at`, which its first eight bytes give.
pub open spec fn section_len(data: Seq<u8>, at: int) -> int {
    spec_u64_from_le_bytes(data.subrange(at, at + 8)) as int
}

/// The section at `at` lies inside the file.
pub open spec fn has_section(data: Seq<u8>, at: int) -> bool {
    at + 8 <= data.len() && at + 8 + section_len(data, at) <= data.len()
}

/// `section` is the one at `at`.
pub open spec fn is_section(section: Section, data: Seq<u8>, at: int) -> bool {
    &&& has_section(data, at)
    &&& section.next == at + 8 + section_len(data, at)
    &&& section.bytes@ == data.subrange(at + 8, section.next as int)
}

/// Reads the section at `at`.
fn read_section(data: &[u8], at: usize) -> (section: Option<Section>)
    requires
        at <= data@.len(),
    ensures
        section is Some <==> has_section(data@, at as int),
        section matches Some(found) ==> is_section(found, data@, at as int),
{
    let total: usize = data.len();
    if total - at < 8 {
        return None;
    }
    let start: usize = at + 8;
    let len: u64 = u64_from_le_bytes(slice_subrange(data, at, start));
    if len > (total - start) as u64 {
        return None;
    }
    let next: usize = start + len as usize;
    let mut bytes: Vec<u8> = Vec::new();
    bytes.extend_from_slice(slice_subrange(data, start, next));
    assert(bytes@ =~= data@.subrange(start as int, next as int));
    Some(Section { bytes, next })
}

/// Frames the metadata and the weights of a model.
pub fn frame(meta: &[u8], weights: &[u8]) -> (file: Vec<u8>)
    ensures
        file@ == framed(meta@, weights@),
{
    let mut file: Vec<u8> = Vec::new();
    file.push(70);
    file.push(84);
    file.push(87);
    file.push(79);
    assert(file@ =~= magic());
    let version = u32_to_le_bytes(FORMAT_VERSION);
    file.extend_from_slice(version.as_slice());
    assert(file@ =~= magic() + spec_u32_to_le_bytes(FORMAT_VERSION));
    let meta_len = u64_to_le_bytes(meta.len() as u64);
    file.extend_from_slice(meta_len.as_slice());
    file.extend_from_slice(meta);
    assert(file@ =~= magic() + spec_u32_to_le_bytes(FORMAT_VERSION) + prefixed(meta@));
    let weights_len = u64_to_le_bytes(weights.len() as u64);
    file.extend_from_slice(weights_len.as_slice());
    file.extend_from_slice(weights);
    assert(file@ =~= framed(meta@, weights@));
    file
}

/// Checks the header of a file and reads its metadata section.
pub fn read_meta(data: &[u8]) -> (meta: Result<Section, FrameError>)
    ensures
        match meta {
            Ok(section) => header_error(data@) is None && is_section(section, data@, 8),
            Err(FrameError::Truncated) => header_error(data@) is None && !has_section(data@, 8),
            Err(error) => header_error(data@) == Some(error),
        },
{
    if data.len() < 8 {
        return Err(FrameError::TooSmall);
    }
    let found = slice_subrange(data, 0, 4);
    if found[0] != 70 || found[1] != 84 || found[2] != 87 || found[3] != 79 {
        proof {
            assert(found@ =~= data@.take(4));
            assert(magic()[0] == 70 && magic()[1] == 84 && magic()[2] == 87 && magic()[3] == 79);
        }
        return Err(FrameError::BadMagic);
    }
    assert(data@.take(4) =~= magic()) by {
        assert(found@ =~= data@.take(4));
    }
    let version: u32 = u32_from_le_bytes(slice_subrange(data, 4, 8));
    if version < FORMAT_VERSION {
        return Err(FrameError::OldVersion { version });
    }
    if version != FORMAT_VERSION {
        return Err(FrameError::UnsupportedVersion { version });
    }
    match read_section(data, 8) {
        Some(section) => Ok(section),
        None => Err(FrameError::Truncated),
    }
}

/// Reads the weights section, which starts where the metadata section ends.
pub fn read_weights(data: &[u8], at: usize) -> (weights: Result<Section, FrameError>)
    requires
        at <= data@.len(),
    ensures
        match weights {
            Ok(section) => is_section(section, data@, at as int),
            Err(error) => error is Truncated && !has_section(data@, at as int),
        },
{
    match read_section(data, at) {
        Some(section) => Ok(section),
        None => Err(FrameError::Truncated),
    }
}

/// What was framed is read back: the header is accepted, the first section holds the metadata, and
/// the section behind it the weights.
pub proof fn frame_round_trip(meta: Seq<u8>, weights: Seq<u8>, first: Section, second: Section)
    requires
        meta.len() <= u64::MAX,
        weights.len() <= u64::MAX,
    ensures
        header_error(framed(meta, weights)) is None,
        has_section(framed(meta, weights), 8),
        is_section(first, framed(meta, weights), 8) ==> {
            &&& first.bytes@ == meta
            &&& has_section(framed(meta, weights), first.next as int)
            &&& is_section(second, framed(meta, weights), first.next as int) ==> second.bytes@
                == weights
        },
{
    lemma_auto_spec_u32_to_from_le_bytes();
    lemma_auto_spec_u64_to_from_le_bytes();
    let data = framed(meta, weights);
    let m: int = meta.len() as int;
    let w: int = weights.len() as int;
    assert(data.take(4) =~= magic());
    assert(data.subrange(4, 8) =~= spec_u32_to_le_bytes(FORMAT_VERSION));
    assert(data.subrange(8, 16) =~= spec_u64_to_le_bytes(meta.len() as u64));
    assert(data.subrange(16, 16 + m) =~= meta);
    assert(data.subrange(16 + m, 24 + m) =~= spec_u64_to_le_bytes(weights.len() as u64));
    assert(data.subrange(24 + m, 24 + m + w) =~= weights);
}

/// A model that scores by what its file holds scores every user after loading as it did when it was
/// saved, users without a row of their own among them: `scores` stands for whatever the network
/// computes of the two sections and the user's row.
pub proof fn loaded_model_scores_as_saved<F>(
    meta: Seq<u8>,
    weights: Seq<u8>,
    first: Section,
    second: Section,
    scores: spec_fn(Seq<u8>, Seq<u8>, Option<usize>) -> Seq<F>,
    user: Option<usize>,
)
    requires
        meta.len() <= u64::MAX,
        weights.len() <= u64::MAX,
        is_section(first, framed(meta, weights), 8),
        is_section(second, framed(meta, weights), first.next as int),
    ensures
        scores(first.bytes@, second.bytes@, user) == scores(meta, weights, user),
{
    frame_round_trip(meta, weights, first, second);
}

/// A file starts with the bytes of `FTWO` and the number five in four bytes; then come the metadata
/// and the weights, each behind its length in eight bytes.
pub proof fn frames_hold_two_sections(meta: Seq<u8>, weights: Seq<u8>)
    requires
        meta.len() <= u64::MAX,
        weights.len() <= u64::MAX,
    ensures
        ({
            let file = framed(meta, weights);
            let second = 16 + meta.len() as int;
            &&& file.len() == 24 + meta.len() + weights.len()
            &&& file[0] == 0x46u8 && file[1] == 0x54u8 && file[2] == 0x57u8 && file[3] == 0x4fu8
            &&& file.subrange(4, 8) == spec_u32_to_le_bytes(5)
            &&& file.subrange(8, 16) == spec_u64_to_le_bytes(meta.len() as u64)
            &&& file.subrange(16, second) == meta
            &&& file.subrange(second, second + 8) == spec_u64_to_le_bytes(weights.len() as u64)
            &&& file.subrange(second + 8, file.len() as int) == weights
        }),
{
    lemma_auto_spec_u32_to_from_le_bytes();
    lemma_auto_spec_u64_to_from_le_bytes();
    let file = framed(meta, weights);
    let second = 16 + meta.len() as int;
    assert(file.subrange(4, 8) =~= spec_u32_to_le_bytes(5));
    assert(file.subrange(8, 16) =~= spec_u64_to_le_bytes(meta.len() as u64));
    assert(file.subrange(16, second) =~= meta);
    assert(file.subrange(second, second + 8) =~= spec_u64_to_le_bytes(weights.len() as u64));
    assert(file.subrange(second + 8, file.len() as int) =~= weights);
}

/// A header is accepted exactly where the file has its eight bytes, starts with `FTWO` and has
/// version five; a lower version is old and a higher one not supported.
pub proof fn headers_are_held_against_the_format(data: Seq<u8>)
    ensures
        ({
            let starts = data[0] == 0x46u8 && data[1] == 0x54u8 && data[2] == 0x57u8 && data[3]
                == 0x4fu8;
            let version = spec_u32_from_le_bytes(data.subrange(4, 8));
            &&& data.len() < 8 <==> header_error(data) == Some(FrameError::TooSmall)
            &&& data.len() >= 8 && !starts <==> header_error(data) == Some(FrameError::BadMagic)
            &&& data.len() >= 8 && starts && version < 5 ==> header_error(data) == Some(
                FrameError::OldVersion { version },
            )
            &&& data.len() >= 8 && starts && version > 5 ==> header_error(data) == Some(
                FrameError::UnsupportedVersion { version },
            )
            &&& data.len() >= 8 && starts && version == 5 <==> header_error(data) is None
        }),
{
    if data.len() >= 8 {
        let start = data.take(4);
        assert(start[0] == data[0] && start[1] == data[1] && start[2] == data[2] && start[3]
            == data[3]);
        if data[0] == 0x46u8 && data[1] == 0x54u8 && data[2] == 0x57u8 && data[3] == 0x4fu8 {
            assert(start =~= magic());
        } else {
            assert(magic()[0] == 0x46u8 && magic()[1] == 0x54u8 && magic()[2] == 0x57u8
                && magic()[3] == 0x4fu8);
        }
    }
}

} // verus!
