//! When frames of a recording are captured, and under what file names.

use vstd::prelude::*;

verus! {

/// The most frames that one recording holds.
pub const FRAME_CAP: u32 = 9999;

/// Frames are captured on even ticks only.
pub open spec fn is_capture_tick(tick: u64) -> bool {
    tick % 2 == 0
}

/// Whether a frame is due on this tick, if a recording runs.
pub fn should_capture_this_tick(tick: u64) -> (r: bool)
    ensures
        r == is_capture_tick(tick),
{
    tick % 2 == 0
}

/// The state of frame capture: whether a recording runs, its session name,
/// and the number of the last frame it captured.
pub struct Capture {
    pub recording: bool,
    pub session: String,
    pub frame: u32,
}

impl Capture {
    /// A running recording has not passed the cap.
    pub open spec fn wf(&self) -> bool {
        self.recording ==> self.frame <= FRAME_CAP
    }

    /// A capture tick of a running recording: the counter moves on, and the
    /// recording stops instead of capturing once the counter passes the cap.
    pub open spec fn captured(self) -> (Capture, Option<u32>) {
        let next = (self.frame + 1) as u32;
        if next > FRAME_CAP {
            (Capture { recording: false, frame: next, ..self }, None)
        } else {
            (Capture { frame: next, ..self }, Some(next))
        }
    }

    /// One tick: a running recording captures on even ticks; otherwise
    /// nothing changes.
    pub open spec fn ticked(self, tick: u64) -> (Capture, Option<u32>) {
        if self.recording && is_capture_tick(tick) {
            self.captured()
        } else {
            (self, None)
        }
    }

    /// The state after `k` capture ticks.
    pub open spec fn after_captures(self, k: nat) -> Capture
        decreases k,
    {
        if k == 0 {
            self
        } else {
            self.captured().0.after_captures((k - 1) as nat)
        }
    }

    /// No recording.
    pub fn new() -> (r: Capture)
        ensures
            !r.recording,
            r.frame == 0,
            r.session@ == Seq::<char>::empty(),
            r.wf(),
    {
        Capture { recording: false, session: String::new(), frame: 0 }
    }

    /// Stops a running recording, or starts a new one named `session` from
    /// frame zero.
    pub fn toggle(&mut self, session: String)
        requires
            old(self).wf(),
        ensures
            final(self).wf(),
            old(self).recording ==> !final(self).recording && final(self).frame == old(self).frame
                && final(self).session == old(self).session,
            !old(self).recording ==> final(self).recording && final(self).frame == 0
                && final(self).session == session,
    {
        if self.recording {
            self.recording = false;
        } else {
            self.session = session;
            self.frame = 0;
            self.recording = true;
        }
    }

    /// Advances by one tick and returns the number of the frame to capture,
    /// if one is due.
    pub fn tick(&mut self, tick: u64) -> (r: Option<u32>)
        requires
            old(self).wf(),
        ensures
            final(self).wf(),
            (*final(self), r) == old(self).ticked(tick),
    {
        if self.recording && should_capture_this_tick(tick) {
            self.frame = self.frame + 1;
            if self.frame > FRAME_CAP {
                self.recording = false;
                None
            } else {
                Some(self.frame)
            }
        } else {
            None
        }
    }
}

proof fn lemma_captures_run(c: Capture, k: nat)
    requires
        c.recording,
        c.frame + k <= FRAME_CAP,
    ensures
        c.after_captures(k).recording,
        c.after_captures(k).frame == c.frame + k,
    decreases k,
{
    if k > 0 {
        lemma_captures_run(c.captured().0, (k - 1) as nat);
    }
}

/// Capture cap: a recording started at frame zero captures frames one to
/// 9999 on its first 9999 capture ticks, still running, and stops on the
/// next one, when the counter would pass the cap, capturing nothing.
pub proof fn lemma_capture_cap(c: Capture)
    requires
        c.recording,
        c.frame == 0,
    ensures
        forall|k: nat|
            k < FRAME_CAP ==> (#[trigger] c.after_captures(k)).recording
                && c.after_captures(k).captured().1 == Some((k + 1) as u32),
        c.after_captures(FRAME_CAP as nat).recording,
        c.after_captures(FRAME_CAP as nat).frame == FRAME_CAP,
        c.after_captures(FRAME_CAP as nat).captured().1 is None,
        !c.after_captures(FRAME_CAP as nat + 1).recording,
{
    assert forall|k: nat| k < FRAME_CAP implies (#[trigger] c.after_captures(k)).recording
        && c.after_captures(k).captured().1 == Some((k + 1) as u32) by {
        lemma_captures_run(c, k);
    }
    lemma_captures_run(c, FRAME_CAP as nat);
    let e = c.after_captures(FRAME_CAP as nat);
    assert(c.after_captures(FRAME_CAP as nat + 1) == e.captured().0.after_captures(0)) by {
        lemma_after_captures_last(c, FRAME_CAP as nat);
    }
}

proof fn lemma_after_captures_last(c: Capture, k: nat)
    ensures
        c.after_captures(k + 1) == c.after_captures(k).captured().0,
    decreases k,
{
    let n = c.captured().0;
    assert(c.after_captures(k + 1) == n.after_captures(k));
    if k > 0 {
        lemma_after_captures_last(n, (k - 1) as nat);
        assert(c.after_captures(k) == n.after_captures((k - 1) as nat));
    } else {
        assert(n.after_captures(0) == n);
    }
}

/// The decimal digits of `n`.
pub open spec fn decimal(n: nat) -> Seq<char>
    decreases n,
{
    if n < 10 {
        seq![digit_char(n)]
    } else {
        decimal(n / 10).push(digit_char(n % 10))
    }
}

/// The digit character of a value below ten.
pub open spec fn digit_char(d: nat) -> char {
    if d == 0 { '0' }
    else if d == 1 { '1' }
    else if d == 2 { '2' }
    else if d == 3 { '3' }
    else if d == 4 { '4' }
    else if d == 5 { '5' }
    else if d == 6 { '6' }
    else if d == 7 { '7' }
    else if d == 8 { '8' }
    else { '9' }
}

/// The zeros that pad a frame number to four digits.
pub open spec fn zero_pad(n: nat) -> Seq<char> {
    if n < 10 {
        seq!['0', '0', '0']
    } else if n < 100 {
        seq!['0', '0']
    } else if n < 1000 {
        seq!['0']
    } else {
        Seq::empty()
    }
}

/// The path of frame `frame` in the directory `dir`: the frame number with
/// at least four digits, zero-padded, and the extension `.png`.
pub open spec fn frame_path_spec(dir: Seq<char>, frame: nat) -> Seq<char> {
    dir + seq!['/'] + zero_pad(frame) + decimal(frame) + seq!['.', 'p', 'n', 'g']
}

fn digit_str(d: u32) -> (r: &'static str)
    requires
        d < 10,
    ensures
        r@ == seq![digit_char(d as nat)],
{
    let digits = "0123456789";
    proof {
        reveal_strlit("0123456789");
    }
    let r = digits.substring_char(d as usize, d as usize + 1);
    assert(r@ =~= seq![digit_char(d as nat)]);
    r
}

fn append_decimal(out: &mut String, n: u32)
    ensures
        final(out)@ == old(out)@ + decimal(n as nat),
    decreases n,
{
    if n >= 10 {
        append_decimal(out, n / 10);
    }
    out.append(digit_str(n % 10));
    assert(final(out)@ =~= old(out)@ + decimal(n as nat)) by {
        if n >= 10 {
            assert(decimal(n as nat) == decimal((n / 10) as nat).push(digit_char((n % 10) as nat)));
        }
    }
}

/// Where frame `frame` of the recording kept in `dir` is written.
pub fn frame_path(dir: &str, frame: u32) -> (r: String)
    ensures
        r@ == frame_path_spec(dir@, frame as nat),
{
    let mut out = String::from_str(dir);
    proof {
        reveal_strlit("/");
        reveal_strlit("0");
        reveal_strlit(".png");
    }
    out.append("/");
    if frame < 1000 {
        out.append("0");
    }
    if frame < 100 {
        out.append("0");
    }
    if frame < 10 {
        out.append("0");
    }
    append_decimal(&mut out, frame);
    out.append(".png");
    assert(out@ =~= frame_path_spec(dir@, frame as nat));
    out
}

} // verus!
