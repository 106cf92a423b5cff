//! What every binary codec does with a wrong magic number and with data that
//! stops inside a record.

use vstd::prelude::*;
use crate::formats::echo_bin::{echo_bin_decode, echo_magic, echo_width};
use crate::formats::fembot::{fembot_decode, fembot_magic};
use crate::formats::kdbot::kdbot_decode;
use crate::formats::mhr_binary::{mhr_binary_decode, mhr_magic, mhr_meta};
use crate::formats::replaybot::{replaybot_decode, replaybot_magic};
use crate::formats::rush::rush_decode;
use crate::formats::silicate::silicate_decode;
use crate::formats::url::url_decode;
use crate::formats::ybot1::{ybot1_count, ybot1_decode, ybot1_magic};
use crate::formats::zbot::zbot_decode;
use crate::bytes::le_u32;
use crate::replay::ReplayError;

verus! {

/// Each format with a magic number refuses data that does not start with it
/// as a malformed header.
pub proof fn lemma_bad_magic_rejected(b: Seq<u8>, fps: u32)
    ensures
        (b.len() < 4 || b.subrange(0, 4) != fembot_magic()) ==> fembot_decode(b) == Err::<
            crate::replay::Decoded,
            ReplayError,
        >(ReplayError::MalformedHeader),
        (b.len() < 4 || b.subrange(0, 4) != replaybot_magic()) ==> replaybot_decode(b) == Err::<
            crate::replay::Decoded,
            ReplayError,
        >(ReplayError::MalformedHeader),
        (b.len() < 4 || b.subrange(0, 4) != ybot1_magic()) ==> ybot1_decode(b) == Err::<
            crate::replay::Decoded,
            ReplayError,
        >(ReplayError::MalformedHeader),
        (b.len() < 4 || b.subrange(0, 4) != echo_magic()) ==> echo_bin_decode(b) == Err::<
            crate::replay::Decoded,
            ReplayError,
        >(ReplayError::MalformedHeader),
        (b.len() < 8 || b.subrange(0, 8) != mhr_magic()) ==> mhr_binary_decode(b) == Err::<
            crate::replay::Decoded,
            ReplayError,
        >(ReplayError::MalformedHeader),
{
}

/// Data that stops inside a record, after a header that reads, is truncated.
pub proof fn lemma_partial_record_truncated(b: Seq<u8>, fps: u32)
    ensures
        b.len() >= 4 && (b.len() - 4) % 6 != 0 ==> kdbot_decode(b) == Err::<
            crate::replay::Decoded,
            ReplayError,
        >(ReplayError::Truncated),
        b.len() >= 8 && b.subrange(0, 4) == fembot_magic() && (b.len() - 8) % 65 != 0
            ==> fembot_decode(b) == Err::<crate::replay::Decoded, ReplayError>(
            ReplayError::Truncated,
        ),
        b.len() >= 10 && b.subrange(0, 4) == replaybot_magic() && b[4] == 2 && b[5] == 1 && (
        b.len() - 10) % 5 != 0 ==> replaybot_decode(b) == Err::<crate::replay::Decoded, ReplayError>(
            ReplayError::Truncated,
        ),
        b.len() >= 5 && (b[4] == 1 && (b.len() - 5) % 5 != 0 || b[4] == 2 && (b.len() - 5) % 9
            != 0) ==> url_decode(b) == Err::<crate::replay::Decoded, ReplayError>(
            ReplayError::Truncated,
        ),
        b.len() >= 12 && b.subrange(0, 4) == ybot1_magic() && b.len() < 12 + 8 * ybot1_count(b)
            ==> ybot1_decode(b) == Err::<crate::replay::Decoded, ReplayError>(
            ReplayError::Truncated,
        ),
        b.len() >= 48 && b.subrange(0, 4) == echo_magic() && (b.len() - 48) % echo_width(b) != 0
            ==> echo_bin_decode(b) == Err::<crate::replay::Decoded, ReplayError>(
            ReplayError::Truncated,
        ),
        b.len() >= 2 && (b.len() - 2) % 5 != 0 ==> rush_decode(b) == Err::<
            crate::replay::Decoded,
            ReplayError,
        >(ReplayError::Truncated),
        b.len() >= 8 && (b.len() - 8) % 6 != 0 ==> zbot_decode(b, fps) == Err::<
            crate::replay::Decoded,
            ReplayError,
        >(ReplayError::Truncated),
        b.len() >= 12 && b.len() < 12 + 4 * le_u32(b, 8) ==> silicate_decode(b, fps) == Err::<
            crate::replay::Decoded,
            ReplayError,
        >(ReplayError::Truncated),
        b.len() >= 16 && b.subrange(0, 8) == mhr_magic() && mhr_meta(b) >= 4 && b.len() >= 28
            + mhr_meta(b) && le_u32(b, 20 + mhr_meta(b)) >= 8 && b.len() < 28 + mhr_meta(b) + le_u32(
            b,
            20 + mhr_meta(b),
        ) * le_u32(b, 24 + mhr_meta(b)) ==> mhr_binary_decode(b) == Err::<
            crate::replay::Decoded,
            ReplayError,
        >(ReplayError::Truncated),
{
}

} // verus!
