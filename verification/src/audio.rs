//! The audio engine: buffers, devices and threads, as far as they are decided here.
use vstd::prelude::*;

use crate::text::{contains, decimal, has_part, push_decimal, to_chars};

verus! {

/// The buffer size that is asked of the audio server: "512/48000".
pub fn quantum(buffer_size: u32, sample_rate: u32) -> (text: String)
    ensures
        text@ == decimal(buffer_size as nat) + "/"@ + decimal(sample_rate as nat),
{
    let mut text = String::new();
    push_decimal(&mut text, buffer_size as u64);
    text.append("/");
    push_decimal(&mut text, sample_rate as u64);
    assert(text@ =~= decimal(buffer_size as nat) + "/"@ + decimal(sample_rate as nat));
    text
}

/// The first device from `from` on whose name holds this text; a device without a name is passed
/// over.
pub open spec fn device_named(names: Seq<Option<String>>, part: Seq<char>, from: int) -> Option<int>
    decreases names.len() - from,
{
    if from < 0 || from >= names.len() {
        None
    } else {
        match names[from] {
            Some(name) if has_part(name@, part) => Some(from),
            _ => device_named(names, part, from + 1),
        }
    }
}

/// The first device whose name holds this text.
pub fn find_device(names: &Vec<Option<String>>, part: &str) -> (found: Option<usize>)
    ensures
        match found {
            Some(i) => device_named(names@, part@, 0) == Some(i as int) && i < names@.len(),
            None => device_named(names@, part@, 0) is None,
        },
{
    let wanted = to_chars(part);
    let mut i: usize = 0;
    while i < names.len()
        invariant
            i <= names@.len(),
            wanted@ == part@,
            device_named(names@, part@, 0) == device_named(names@, part@, i as int),
        decreases names@.len() - i,
    {
        if let Some(name) = &names[i] {
            if contains(&to_chars(name.as_str()), &wanted) {
                return Some(i);
            }
        }
        i = i + 1;
    }
    None
}

/// Whether a thread runs in real time under this scheduling policy; flags above the policy are
/// ignored.
pub fn is_realtime(policy: i32, fifo: i32, round_robin: i32) -> (r: bool)
    ensures
        r == (policy & 0xF == fifo || policy & 0xF == round_robin),
{
    let base: i32 = policy & 0xF;
    base == fifo || base == round_robin
}

/// Whether a stream error is only news: the buffer size changed.
pub fn is_harmless(message: &str) -> (r: bool)
    ensures
        r == has_part(message@, "buffer size changed"@),
{
    contains(&to_chars(message), &to_chars("buffer size changed"))
}

/// Puts the samples of the channels side by side, frame after frame.
pub fn interleave<F: Copy>(data: &mut [F], channels: &Vec<Vec<F>>, frames: usize)
    requires
        old(data)@.len() == frames * channels@.len(),
        forall|c: int| 0 <= c < channels@.len() ==> (#[trigger] channels@[c])@.len() >= frames,
    ensures
        final(data)@.len() == old(data)@.len(),
        forall|frame: int, c: int|
            #![trigger channels@[c]@[frame]]
            0 <= frame < frames && 0 <= c < channels@.len() ==> final(data)@[frame * channels@.len() + c]
                == channels@[c]@[frame],
{
    let n: usize = channels.len();
    let len: usize = data.len();
    let mut at: usize = 0;
    let mut frame: usize = 0;
    while frame < frames
        invariant
            frame <= frames,
            n == channels@.len(),
            len == data@.len(),
            len == frames * n,
            at == frame * n,
            forall|c: int| 0 <= c < n ==> (#[trigger] channels@[c])@.len() >= frames,
            forall|f: int, c: int|
                #![trigger channels@[c]@[f]]
                0 <= f < frame && 0 <= c < n ==> data@[f * n + c] == channels@[c]@[f],
        decreases frames - frame,
    {
        assert(frame * n + n <= frames * n) by (nonlinear_arith)
            requires
                frame < frames,
        ;
        let mut c: usize = 0;
        while c < n
            invariant
                c <= n,
                frame < frames,
                n == channels@.len(),
                len == data@.len(),
                at == frame * n + c,
                frame * n + n <= len,
                forall|k: int| 0 <= k < n ==> (#[trigger] channels@[k])@.len() >= frames,
                forall|f: int, k: int|
                    #![trigger channels@[k]@[f]]
                    0 <= f < frame && 0 <= k < n ==> data@[f * n + k] == channels@[k]@[f],
                forall|k: int| #![trigger channels@[k]] 0 <= k < c ==> data@[frame * n + k] == channels@[k]@[frame as int],
            decreases n - c,
        {
            data[at] = channels[c][frame];
            proof {
                assert forall|f: int, k: int|
                    #![trigger channels@[k]@[f]]
                    0 <= f < frame && 0 <= k < n implies f * n + k < frame * n by {
                    assert(f * n + n <= frame * n) by (nonlinear_arith)
                        requires
                            f < frame,
                    ;
                }
            }
            at = at + 1;
            c = c + 1;
        }
        assert(frame * n + n == (frame + 1) * n) by (nonlinear_arith);
        frame = frame + 1;
    }
}

/// The samples of a channel that a plugin gets: what there is, and zeros behind.
pub open spec fn padded_input<F>(input: Option<Seq<F>>, frames: nat, zero: F) -> Seq<F> {
    Seq::new(
        frames,
        |i: int|
            match input {
                Some(samples) => if i < samples.len() {
                    samples[i]
                } else {
                    zero
                },
                None => zero,
            },
    )
}

/// Fills a buffer with the samples of a channel, and zeros behind.
pub fn pad_input<F: Copy>(buf: &mut Vec<F>, input: Option<&[F]>, frames: usize, zero: F)
    ensures
        final(buf)@ == padded_input(
            match input {
                Some(samples) => Some(samples@),
                None => None,
            },
            frames as nat,
            zero,
        ),
{
    buf.clear();
    let ghost given = match input {
        Some(samples) => Some(samples@),
        None => None,
    };
    let ghost whole = padded_input(given, frames as nat, zero);
    let mut i: usize = 0;
    while i < frames
        invariant
            i <= frames,
            given == (match input {
                Some(samples) => Some(samples@),
                None => None,
            }),
            whole == padded_input(given, frames as nat, zero),
            buf@ == whole.take(i as int),
        decreases frames - i,
    {
        let sample = match input {
            Some(samples) => if i < samples.len() {
                samples[i]
            } else {
                zero
            },
            None => zero,
        };
        buf.push(sample);
        assert(whole.take(i + 1) =~= whole.take(i as int).push(whole[i as int]));
        i = i + 1;
    }
    assert(whole.take(i as int) =~= whole);
}

/// A buffer resized to `frames` samples, new ones zero, with the samples of a channel copied over
/// as far as they go; zeros where there is no channel. Samples behind a short channel stay.
pub open spec fn refilled<F>(old_buf: Seq<F>, input: Option<Seq<F>>, frames: nat, zero: F) -> Seq<F> {
    Seq::new(
        frames,
        |i: int|
            match input {
                Some(samples) => if i < samples.len() {
                    samples[i]
                } else if i < old_buf.len() {
                    old_buf[i]
                } else {
                    zero
                },
                None => zero,
            },
    )
}

/// Resizes a buffer and copies the samples of a channel into it; see [`refilled`].
pub fn refill<F: Copy>(buf: &mut Vec<F>, input: Option<&[F]>, frames: usize, zero: F)
    ensures
        final(buf)@ == refilled(
            old(buf)@,
            match input {
                Some(samples) => Some(samples@),
                None => None,
            },
            frames as nat,
            zero,
        ),
{
    let ghost start = buf@;
    let ghost given = match input {
        Some(samples) => Some(samples@),
        None => None,
    };
    let ghost whole = refilled(start, given, frames as nat, zero);
    buf.truncate(frames);
    while buf.len() < frames
        invariant
            buf@.len() <= frames,
            forall|k: int| 0 <= k < buf@.len() ==> #[trigger] buf@[k] == (if k < start.len() {
                start[k]
            } else {
                zero
            }),
            buf@.len() < frames ==> buf@.len() >= start.len(),
        decreases frames - buf@.len(),
    {
        buf.push(zero);
    }
    let mut i: usize = 0;
    while i < frames
        invariant
            i <= frames,
            buf@.len() == frames,
            given == (match input {
                Some(samples) => Some(samples@),
                None => None,
            }),
            whole == refilled(start, given, frames as nat, zero),
            forall|k: int| 0 <= k < i ==> #[trigger] buf@[k] == whole[k],
            forall|k: int| i <= k < frames ==> #[trigger] buf@[k] == (if k < start.len() {
                start[k]
            } else {
                zero
            }),
        decreases frames - i,
    {
        match input {
            Some(samples) => if i < samples.len() {
                buf.set(i, samples[i]);
            },
            None => {
                buf.set(i, zero);
            },
        }
        i = i + 1;
    }
    assert(buf@ =~= whole);
}

/// Copies as much of `from` to the front of `to` as fits.
pub fn copy_front<F: Copy>(to: &mut [F], from: &[F])
    ensures
        final(to)@.len() == old(to)@.len(),
        forall|i: int|
            0 <= i < old(to)@.len() ==> #[trigger] final(to)@[i] == (if i < from@.len() {
                from@[i]
            } else {
                old(to)@[i]
            }),
{
    let n: usize = to.len();
    let mut i: usize = 0;
    while i < n && i < from.len()
        invariant
            i <= n,
            i <= from@.len(),
            n == to@.len(),
            n == old(to)@.len(),
            forall|k: int| 0 <= k < i ==> #[trigger] to@[k] == from@[k],
            forall|k: int| i <= k < n ==> #[trigger] to@[k] == old(to)@[k],
        decreases n - i,
    {
        to[i] = from[i];
        i = i + 1;
    }
}

} // verus!
