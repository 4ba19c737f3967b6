//! Capture-device selection: name scoring and the pure parts of device
//! picking.
//!
//! Device enumeration belongs to the audio backend outside the core;
//! these functions decide, from plain name strings, which device an
//! automatic pick should prefer — sink monitors first, microphones and
//! cameras last.

use vstd::prelude::*;
use vstd::string::StrSliceExecFns;

use crate::num::clamp_spec;

verus! {

/// What `str::to_lowercase` returns for a given character sequence.
pub uninterp spec fn lower_of(s: Seq<char>) -> Seq<char>;

/// Relies on str::to_lowercase: Unicode lowercasing, a function of the
/// characters alone.
#[verifier::external_body]
fn lowercase(s: &str) -> (r: String)
    ensures
        r@ == lower_of(s@),
{
    s.to_lowercase()
}

/// `n` occurs in `h` starting at position `i`.
pub open spec fn contains_at(h: Seq<char>, n: Seq<char>, i: int) -> bool {
    0 <= i && i + n.len() <= h.len() && h.subrange(i, i + n.len()) == n
}

/// `n` occurs somewhere in `h`.
pub open spec fn spec_contains(h: Seq<char>, n: Seq<char>) -> bool {
    exists|i: int| contains_at(h, n, i)
}

/// Whether `needle` matches `hay` at character position `i`.
fn match_at(hay: &str, hn: usize, i: usize, needle: &str, nn: usize) -> (r: bool)
    requires
        hn == hay@.len(),
        nn == needle@.len(),
        i + nn <= hn,
    ensures
        r == (hay@.subrange(i as int, i as int + nn as int) == needle@),
{
    let mut j: usize = 0;
    while j < nn
        invariant
            hn == hay@.len(),
            nn == needle@.len(),
            i + nn <= hn,
            j <= nn,
            forall|t: int| 0 <= t < j ==> hay@[i + t] == needle@[t],
        decreases nn - j,
    {
        let hc = hay.get_char(i + j);
        let nc = needle.get_char(j);
        if hc != nc {
            proof {
                assert(hay@.subrange(i as int, i as int + nn as int)[j as int] == hay@[i + j]);
            }
            return false;
        }
        j = j + 1;
    }
    proof {
        assert(hay@.subrange(i as int, i as int + nn as int) =~= needle@);
    }
    true
}

/// Substring search over character sequences.
pub fn str_contains(hay: &str, needle: &str) -> (r: bool)
    ensures
        r == spec_contains(hay@, needle@),
{
    let hn = hay.unicode_len();
    let nn = needle.unicode_len();
    if nn > hn {
        proof {
            assert(forall|i: int| !contains_at(hay@, needle@, i));
        }
        return false;
    }
    if nn == 0 {
        proof {
            assert(hay@.subrange(0, 0) =~= needle@);
            assert(contains_at(hay@, needle@, 0));
        }
        return true;
    }
    let mut i: usize = 0;
    while i <= hn - nn
        invariant
            hn == hay@.len(),
            nn == needle@.len(),
            1 <= nn <= hn,
            i <= hn - nn + 1,
            forall|t: int| 0 <= t < i ==> !contains_at(hay@, needle@, t),
        decreases hn - nn + 1 - i,
    {
        if match_at(hay, hn, i, needle, nn) {
            proof {
                assert(contains_at(hay@, needle@, i as int));
            }
            return true;
        }
        i = i + 1;
    }
    proof {
        assert(forall|t: int| t > hn - nn ==> !contains_at(hay@, needle@, t));
    }
    false
}

/// The preference score of a lowercased device name: sink monitors rank
/// highest, outputs get a boost, microphones, cameras and headsets are
/// penalized.
pub open spec fn score_spec(s: Seq<char>) -> int {
    let a = if spec_contains(s, "monitor of"@) {
        200int
    } else {
        0int
    };
    let b = if spec_contains(s, ".monitor"@) {
        160int
    } else {
        0int
    };
    let c = if spec_contains(s, "monitor"@) {
        100int
    } else {
        0int
    };
    let d = if spec_contains(s, "sink"@) || spec_contains(s, "output"@) || spec_contains(
        s,
        "speaker"@,
    ) {
        40int
    } else {
        0int
    };
    let e = if spec_contains(s, "mic"@) || spec_contains(s, "microphone"@) {
        -80int
    } else {
        0int
    };
    let f = if spec_contains(s, "webcam"@) || spec_contains(s, "camera"@) {
        -80int
    } else {
        0int
    };
    let g = if spec_contains(s, "headset"@) || spec_contains(s, "headphone"@) {
        -40int
    } else {
        0int
    };
    let h = if spec_contains(s, "input"@) {
        -20int
    } else {
        0int
    };
    a + b + c + d + e + f + g + h
}

/// Score a device name for automatic selection.
pub fn score_device_name(name: &str) -> (score: i32)
    ensures
        score == score_spec(lower_of(name@)),
        -220 <= score <= 500,
{
    let lower = lowercase(name);
    let l = lower.as_str();
    let mut score: i32 = 0;

    // prefer obvious sink monitors
    if str_contains(l, "monitor of") {
        score = score + 200;
    }
    if str_contains(l, ".monitor") {
        score = score + 160;
    }
    if str_contains(l, "monitor") {
        score = score + 100;
    }

    // extra hints that it is an output path
    if str_contains(l, "sink") || str_contains(l, "output") || str_contains(l, "speaker") {
        score = score + 40;
    }

    // penalize obvious mics and webcams
    if str_contains(l, "mic") || str_contains(l, "microphone") {
        score = score - 80;
    }
    if str_contains(l, "webcam") || str_contains(l, "camera") {
        score = score - 80;
    }
    if str_contains(l, "headset") || str_contains(l, "headphone") {
        score = score - 40;
    }
    if str_contains(l, "input") {
        score = score - 20;
    }

    score
}

/// Whether a device name matches a user filter, both compared in lower
/// case.
pub open spec fn name_matches(name: Seq<char>, filter: Seq<char>) -> bool {
    spec_contains(lower_of(name), lower_of(filter))
}

/// The first device whose name contains the filter, for a manual
/// override.
pub fn pick_by_filter(names: &Vec<String>, filter: &str) -> (r: Option<usize>)
    ensures
        match r {
            Some(i) => 0 <= i < names@.len() && name_matches(names@[i as int]@, filter@)
                && forall|j: int| 0 <= j < i ==> !name_matches(names@[j]@, filter@),
            None => forall|j: int| 0 <= j < names@.len() ==> !name_matches(names@[j]@, filter@),
        },
{
    let f = lowercase(filter);
    let mut i: usize = 0;
    while i < names.len()
        invariant
            f@ == lower_of(filter@),
            i <= names@.len(),
            forall|j: int| 0 <= j < i ==> !name_matches(names@[j]@, filter@),
        decreases names@.len() - i,
    {
        let ln = lowercase(names[i].as_str());
        if str_contains(ln.as_str(), f.as_str()) {
            return Some(i);
        }
        i = i + 1;
    }
    None
}

/// The automatically preferred device: the first name achieving the
/// highest positive score, if any name scores positive at all.
pub fn pick_best_scored(names: &Vec<String>) -> (r: Option<usize>)
    ensures
        match r {
            Some(i) => {
                &&& 0 <= i < names@.len()
                &&& score_spec(lower_of(names@[i as int]@)) > 0
                &&& forall|j: int|
                    0 <= j < i ==> score_spec(lower_of(#[trigger] names@[j]@)) <= 0 || score_spec(
                        lower_of(names@[j]@),
                    ) < score_spec(lower_of(names@[i as int]@))
                &&& forall|j: int|
                    i < j < names@.len() ==> score_spec(lower_of(#[trigger] names@[j]@))
                        <= score_spec(lower_of(names@[i as int]@))
            },
            None => forall|j: int|
                0 <= j < names@.len() ==> score_spec(lower_of(#[trigger] names@[j]@)) <= 0,
        },
{
    let mut best_idx: usize = 0;
    let mut best_score: i32 = 0;
    let mut found = false;
    let mut i: usize = 0;
    while i < names.len()
        invariant
            i <= names@.len(),
            found ==> 0 <= best_idx < i && best_score == score_spec(
                lower_of(names@[best_idx as int]@),
            ) && best_score > 0,
            found ==> forall|j: int|
                0 <= j < best_idx ==> score_spec(lower_of(#[trigger] names@[j]@)) <= 0 || score_spec(
                    lower_of(names@[j]@),
                ) < best_score,
            found ==> forall|j: int|
                best_idx < j < i ==> score_spec(lower_of(#[trigger] names@[j]@)) <= best_score,
            !found ==> forall|j: int|
                0 <= j < i ==> score_spec(lower_of(#[trigger] names@[j]@)) <= 0,
        decreases names@.len() - i,
    {
        let s = score_device_name(names[i].as_str());
        if s > 0 && (!found || s > best_score) {
            best_idx = i;
            best_score = s;
            found = true;
        }
        i = i + 1;
    }
    if found {
        Some(best_idx)
    } else {
        None
    }
}

/// Clamp a declared sample rate into the supported range.
pub fn clamp_sample_rate(sr: u32) -> (r: u32)
    ensures
        r == clamp_spec(sr as int, 44100, 48000),
{
    if sr < 44100 {
        44100
    } else if sr > 48000 {
        48000
    } else {
        sr
    }
}

} // verus!
