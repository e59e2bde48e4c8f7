//! Relative sample paths: the audio-extension filter and the sample root.

use vstd::prelude::*;
use crate::bytes::bytes_equal;
use vstd::string::StringSliceAdditionalSpecFns;

verus! {

/// The byte of `.`.
pub const DOT: u8 = 46;

/// The byte of `/`, the path separator.
pub const SLASH: u8 = 47;

/// The extensions that mark a path as an audio sample (compared exactly,
/// case included).
pub open spec fn is_audio_extension(e: Seq<u8>) -> bool {
    e == "wav".spec_bytes() || e == "aif".spec_bytes() || e == "aiff".spec_bytes()
        || e == "mp3".spec_bytes() || e == "flac".spec_bytes()
}

/// The dot at `d` starts the extension of `p`: it is the last dot of the
/// final segment, and not that segment's first byte.
pub open spec fn extension_dot(p: Seq<u8>, d: int) -> bool {
    &&& 0 < d < p.len()
    &&& p[d] == DOT
    &&& p[d - 1] != SLASH
    &&& forall|k: int| d < k < p.len() ==> #[trigger] p[k] != DOT && p[k] != SLASH
}

/// `p` without what follows its final component: trailing separators and
/// trailing `.` segments, which name no component.
pub open spec fn without_trailing(p: Seq<u8>) -> Seq<u8>
    decreases p.len(),
{
    if p.len() > 0 && (p.last() == SLASH || (p.last() == DOT && (p.len() == 1 || p[p.len() - 2] == SLASH))) {
        without_trailing(p.drop_last())
    } else {
        p
    }
}

/// The last segment of `p` has an extension, and it is an audio one.
pub open spec fn has_audio_tail(p: Seq<u8>) -> bool {
    exists|d: int| #[trigger] extension_dot(p, d) && is_audio_extension(p.subrange(d + 1, p.len() as int))
}

/// The final component of `p` has an extension, and it is an audio one.
pub open spec fn is_audio_path(p: Seq<u8>) -> bool {
    has_audio_tail(without_trailing(p))
}

/// Whether the path in `p` names an audio sample.
pub fn is_audio_bytes(p: &[u8]) -> (r: bool)
    ensures
        r == is_audio_path(p@),
{
    let mut e: usize = p.len();
    assert(p@.subrange(0, e as int) == p@);
    while e > 0 && (p[e - 1] == SLASH || (p[e - 1] == DOT && (e == 1 || p[e - 2] == SLASH)))
        invariant
            e <= p@.len(),
            without_trailing(p@.subrange(0, e as int)) == without_trailing(p@),
        decreases e,
    {
        assert(p@.subrange(0, e as int).drop_last() == p@.subrange(0, e - 1));
        e = e - 1;
    }
    let head = p.split_at(e).0;
    assert(head@ == p@.subrange(0, e as int));
    has_audio_tail_bytes(head)
}

/// Whether the last segment of `p` has an audio extension.
fn has_audio_tail_bytes(p: &[u8]) -> (r: bool)
    ensures
        r == has_audio_tail(p@),
{
    let mut i: usize = p.len();
    while i > 0 && p[i - 1] != DOT && p[i - 1] != SLASH
        invariant
            i <= p@.len(),
            forall|k: int| i <= k < p@.len() ==> #[trigger] p@[k] != DOT && p@[k] != SLASH,
        decreases i,
    {
        i = i - 1;
    }
    if i == 0 || p[i - 1] == SLASH {
        assert forall|d: int| !#[trigger] extension_dot(p@, d) by {
            if extension_dot(p@, d) {
                assert(p@[d] == DOT);
            }
        }
        return false;
    }
    let d: usize = i - 1;
    if d == 0 || p[d - 1] == SLASH {
        assert forall|e: int| !#[trigger] extension_dot(p@, e) by {
            if extension_dot(p@, e) {
                if e < d {
                    assert(p@[d as int] == DOT);
                }
            }
        }
        return false;
    }
    let ext = p.split_at(i).1;
    assert(ext@ == p@.subrange(d + 1, p@.len() as int));
    assert(extension_dot(p@, d as int));
    assert forall|e: int| #[trigger] extension_dot(p@, e) implies e == d by {
        if e < d {
            assert(p@[d as int] == DOT);
        } else if e > d {
            assert(p@[e] == DOT);
        }
    }
    bytes_equal(ext, "wav".as_bytes()) || bytes_equal(ext, "aif".as_bytes())
        || bytes_equal(ext, "aiff".as_bytes()) || bytes_equal(ext, "mp3".as_bytes())
        || bytes_equal(ext, "flac".as_bytes())
}

/// Whether `file` names an audio sample: the extension of its final component
/// (trailing separators and `.` segments aside) is one of wav, aif, aiff, mp3
/// and flac.
pub fn is_audio_file(file: &str) -> (r: bool)
    ensures
        r == is_audio_path(file.spec_bytes()),
{
    is_audio_bytes(file.as_bytes())
}

} // verus!
