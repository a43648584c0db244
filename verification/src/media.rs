//! What the media probes report: capture-date tags and motion between frames.
use vstd::prelude::*;

use crate::text::{
    chars_of, find_char, lines_of, next_char, pieces, same, slice_of, split_chars, starts_with,
    string_of, trim_chars, trimmed,
};

verus! {

/// The capture date a recording carries in its container metadata: the raw tag
/// values when present.
#[derive(Debug, PartialEq)]
pub struct CaptureDate {
    /// `com.apple.quicktime.creationdate`: local wall-clock time with its offset.
    pub quicktime_creationdate: Option<String>,
    /// `creation_time`: ISO-8601 in UTC.
    pub creation_time: Option<String>,
}

/// What a capture date holds.
#[verifier::ext_equal]
pub struct CaptureDateView {
    pub quicktime_creationdate: Option<Seq<char>>,
    pub creation_time: Option<Seq<char>>,
}

impl DeepView for CaptureDate {
    type V = CaptureDateView;

    open spec fn deep_view(&self) -> CaptureDateView {
        CaptureDateView {
            quicktime_creationdate: self.quicktime_creationdate.deep_view(),
            creation_time: self.creation_time.deep_view(),
        }
    }
}

impl Default for CaptureDate {
    /// A capture date without tags.
    fn default() -> (r: CaptureDate)
        ensures
            r.deep_view() == no_date(),
    {
        CaptureDate { quicktime_creationdate: None, creation_time: None }
    }
}

/// A capture date without tags.
pub open spec fn no_date() -> CaptureDateView {
    CaptureDateView { quicktime_creationdate: None, creation_time: None }
}

/// A tag key without the report's `TAG:` prefix and surrounding white space.
pub open spec fn tag_key(s: Seq<char>) -> Seq<char> {
    if s.len() >= 4 && s.take(4) == "TAG:"@ {
        trimmed(s.skip(4))
    } else {
        trimmed(s)
    }
}

/// A capture date after one line of the report: a `key=value` line whose key is
/// one of the two tags and whose value is not blank sets that tag.
pub open spec fn with_line(date: CaptureDateView, line: Seq<char>) -> CaptureDateView {
    let at = next_char(line, '=', 0);
    if at >= line.len() {
        date
    } else {
        let key = tag_key(line.take(at));
        let value = trimmed(line.skip(at + 1));
        if value.len() == 0 {
            date
        } else if key == "com.apple.quicktime.creationdate"@ {
            CaptureDateView { quicktime_creationdate: Some(value), ..date }
        } else if key == "creation_time"@ {
            CaptureDateView { creation_time: Some(value), ..date }
        } else {
            date
        }
    }
}

/// A capture date after the lines of the report.
pub open spec fn with_lines(lines: Seq<Seq<char>>) -> CaptureDateView
    decreases lines.len(),
{
    if lines.len() == 0 {
        no_date()
    } else {
        with_line(with_lines(lines.drop_last()), lines.last())
    }
}

/// Parse the capture-date tags out of a probe report of `TAG:<key>=<value>`
/// lines; other lines are ignored, and of one tag the last value stands.
pub fn parse_capture_date(report: &str) -> (r: CaptureDate)
    ensures
        r.deep_view() == with_lines(lines_of(report@)),
{
    let all = split_chars(&chars_of(report), '\n');
    let ghost lines = lines_of(report@);
    let ghost pcs = pieces(report@, '\n');
    let mut date = CaptureDate::default();
    let n: usize = all.len();
    proof {
        pieces_nonempty(report@, '\n');
        assert(all.deep_view().last() == all@[n - 1].deep_view());
        assert(all@[n - 1].deep_view() =~= all@[n - 1]@);
    }
    let used: usize = if all[n - 1].len() == 0 {
        n - 1
    } else {
        n
    };
    let mut i: usize = 0;
    assert(lines.len() == used);
    assert(lines.take(0) =~= Seq::empty());
    while i < used
        invariant
            i <= used <= n,
            n == all@.len(),
            n > 0,
            all.deep_view() == pcs,
            pcs == pieces(report@, '\n'),
            lines == lines_of(report@),
            lines.len() == used,
            date.deep_view() == with_lines(lines.take(i as int)),
        decreases used - i,
    {
        assert(all@[i as int].deep_view() =~= all@[i as int]@);
        assert(pcs[i as int] == all@[i as int]@);
        let piece = &all[i];
        let m: usize = piece.len();
        let line = if i < n - 1 && m > 0 && piece[m - 1] == '\r' {
            slice_of(piece, 0, m - 1)
        } else {
            slice_of(piece, 0, m)
        };
        proof {
            if i < n - 1 && m > 0 && piece@.last() == '\r' {
                assert(line@ =~= piece@.drop_last());
            } else {
                assert(line@ =~= piece@);
            }
            assert(line@ == lines[i as int]);
            assert(lines.take(i + 1).drop_last() =~= lines.take(i as int));
        }
        apply_line(&mut date, &line);
        i += 1;
    }
    assert(lines.take(used as int) =~= lines);
    date
}

/// There is always at least one piece.
proof fn pieces_nonempty(s: Seq<char>, c: char)
    ensures
        pieces(s, c).len() > 0,
    decreases s.len(),
{
}

/// Take one line of the report in.
fn apply_line(date: &mut CaptureDate, line: &Vec<char>)
    ensures
        final(date).deep_view() == with_line(old(date).deep_view(), line@),
{
    let at = find_char(line, '=', 0);
    let n: usize = line.len();
    if at >= n {
        return;
    }
    let left = slice_of(line, 0, at);
    assert(left@ =~= line@.take(at as int));
    let value = trim_chars(&slice_of(line, at + 1, n));
    assert(line@.subrange(at + 1, n as int) =~= line@.skip(at + 1));
    if value.len() == 0 {
        return;
    }
    let prefixed = starts_with(&left, "TAG:");
    proof {
        reveal_strlit("TAG:");
        assert("TAG:"@.len() == 4);
    }
    let bare = if prefixed {
        slice_of(&left, 4, left.len())
    } else {
        slice_of(&left, 0, left.len())
    };
    proof {
        if prefixed {
            assert(bare@ =~= left@.skip(4));
        } else {
            assert(bare@ =~= left@);
        }
    }
    let trimmed_key = trim_chars(&bare);
    let key = string_of(&trimmed_key, 0, trimmed_key.len());
    assert(key@ =~= trimmed_key@);
    let text = string_of(&value, 0, value.len());
    assert(text@ =~= value@);
    if same(&key, "com.apple.quicktime.creationdate") {
        date.quicktime_creationdate = Some(text);
    } else if same(&key, "creation_time") {
        date.creation_time = Some(text);
    }
}

/// Frames per second the motion track is sampled at.
pub const MOTION_FPS: u32 = 5;

/// Sample rate the segmenter analyzes at.
pub const SEGMENT_SAMPLE_RATE: u32 = 16_000;

/// Pixels of a downscaled frame: 96 by 54.
pub const MOTION_FRAME: usize = 5_184;

/// How far two bytes lie apart.
pub open spec fn byte_distance(a: u8, b: u8) -> nat {
    if a < b {
        (b - a) as nat
    } else {
        (a - b) as nat
    }
}

/// The sum of the distances of the first `n` bytes of the frames at two
/// positions.
pub open spec fn frame_distance(bytes: Seq<u8>, a: int, b: int, n: nat) -> nat
    decreases n,
{
    if n == 0 {
        0
    } else {
        frame_distance(bytes, a, b, (n - 1) as nat) + byte_distance(
            bytes[a + n - 1],
            bytes[b + n - 1],
        )
    }
}

/// The motion between frame `k` of a raw grayscale video and the next.
pub open spec fn motion_at(bytes: Seq<u8>, k: int) -> nat {
    frame_distance(
        bytes,
        (k + 1) * MOTION_FRAME,
        k * MOTION_FRAME,
        MOTION_FRAME as nat,
    )
}

/// The sum of absolute pixel differences between each frame of a raw grayscale
/// video and its predecessor: one value per transition, a trailing partial frame
/// left out. An error when there are fewer than two frames.
pub fn motion_sums(bytes: &Vec<u8>) -> (r: Result<Vec<u64>, String>)
    ensures
        r is Err <==> bytes@.len() < 2 * MOTION_FRAME,
        r matches Err(e) ==> e@ == "video yielded too few frames for motion analysis"@,
        r matches Ok(v) ==> {
            &&& v@.len() == bytes@.len() / MOTION_FRAME as nat - 1
            &&& forall|k: int| 0 <= k < v@.len() ==> #[trigger] v@[k] == motion_at(bytes@, k)
        },
{
    if bytes.len() < 2 * MOTION_FRAME {
        return Err("video yielded too few frames for motion analysis".to_owned());
    }
    let n: usize = bytes.len();
    let frames: usize = n / MOTION_FRAME;
    let mut out: Vec<u64> = Vec::new();
    let mut k: usize = 0;
    while k + 1 < frames
        invariant
            n == bytes@.len(),
            frames == n as nat / MOTION_FRAME as nat,
            k + 1 <= frames,
            out@.len() == k,
            forall|j: int| 0 <= j < k ==> #[trigger] out@[j] == motion_at(bytes@, j),
        decreases frames - k,
    {
        let base: usize = k * MOTION_FRAME;
        let next: usize = (k + 1) * MOTION_FRAME;
        let mut sum: u64 = 0;
        let mut i: usize = 0;
        while i < MOTION_FRAME
            invariant
                i <= MOTION_FRAME,
                base == k * MOTION_FRAME,
                next == (k + 1) * MOTION_FRAME,
                n == bytes@.len(),
                next + MOTION_FRAME <= n,
                sum == frame_distance(bytes@, next as int, base as int, i as nat),
                sum <= 255 * i,
            decreases MOTION_FRAME - i,
        {
            let a: u8 = bytes[next + i];
            let b: u8 = bytes[base + i];
            let d: u8 = if a < b {
                b - a
            } else {
                a - b
            };
            sum = sum + d as u64;
            i += 1;
        }
        out.push(sum);
        k += 1;
    }
    Ok(out)
}

} // verus!
