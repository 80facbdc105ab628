//! The audio engine's decisions that need no samples: error values, the
//! stream layout a decoder reports, what each demuxer event means, the
//! output-device list and the published playlist view.

use vstd::prelude::*;
use crate::fmt::{decimal, push_decimal};
use crate::text::{chars_of, extend_chars, string_from_chars, vec_eq};

verus! {

/// Why a file could not be decoded.
#[derive(Debug, Clone, PartialEq, Eq)]
pub enum DecodeError {
    /// Opening or reading the file failed; the error's text.
    Io(String),
    UnsupportedFormat,
    NoTracks,
    /// The demuxer or decoder failed; its message.
    Decode(String),
    /// The stream has more channels than fit in a `u16`.
    TooManyChannels(usize),
}

fn with_prefix(prefix: &str, m: &String) -> (r: String)
    ensures
        r@ == prefix@ + m@,
{
    let mut v = chars_of(prefix);
    extend_chars(&mut v, &chars_of(m.as_str()));
    string_from_chars(v)
}

impl DecodeError {
    /// The human-readable text of the error.
    pub fn message(&self) -> (r: String)
        ensures
            match self {
                DecodeError::Io(m) => r@ == "io: "@ + m@,
                DecodeError::UnsupportedFormat => r@ == "unsupported format"@,
                DecodeError::NoTracks => r@ == "no audio tracks"@,
                DecodeError::Decode(m) => r@ == "decode: "@ + m@,
                DecodeError::TooManyChannels(n) => r@ == "too many channels: "@ + decimal(
                    *n as nat,
                ),
            },
    {
        match self {
            DecodeError::Io(m) => with_prefix("io: ", m),
            DecodeError::UnsupportedFormat => string_from_chars(chars_of("unsupported format")),
            DecodeError::NoTracks => string_from_chars(chars_of("no audio tracks")),
            DecodeError::Decode(m) => with_prefix("decode: ", m),
            DecodeError::TooManyChannels(n) => {
                let mut v = chars_of("too many channels: ");
                push_decimal(&mut v, *n as u64);
                string_from_chars(v)
            },
        }
    }
}

/// Why the player could not do what it was asked.
#[derive(Debug, Clone, PartialEq, Eq)]
pub enum PlayerError {
    Decode(String),
    Output(String),
}

impl PlayerError {
    /// The human-readable text of the error.
    pub fn message(&self) -> (r: String)
        ensures
            match self {
                PlayerError::Decode(m) => r@ == "decode: "@ + m@,
                PlayerError::Output(m) => r@ == "output: "@ + m@,
            },
    {
        match self {
            PlayerError::Decode(m) => with_prefix("decode: ", m),
            PlayerError::Output(m) => with_prefix("output: ", m),
        }
    }

    /// The error of a command sent after the worker thread stopped.
    pub fn worker_gone() -> (r: PlayerError)
        ensures
            r matches PlayerError::Output(m) && m@ == "worker thread is gone"@,
    {
        PlayerError::Output(string_from_chars(chars_of("worker thread is gone")))
    }
}

/// The sample rate and channel count a decoded stream is played at: the
/// declared ones, else 44100 Hz and stereo; more channels than fit in a
/// `u16` is an error.
pub fn stream_layout(sample_rate: Option<u32>, channel_count: Option<usize>) -> (r: Result<
    (u32, u16),
    DecodeError,
>)
    ensures
        ({
            let rate = match sample_rate {
                Some(s) => s,
                None => 44100u32,
            };
            let count: usize = match channel_count {
                Some(c) => c,
                None => 2usize,
            };
            &&& count <= u16::MAX ==> r == Ok::<(u32, u16), DecodeError>((rate, count as u16))
            &&& count > u16::MAX ==> r == Err::<(u32, u16), DecodeError>(
                DecodeError::TooManyChannels(count),
            )
        }),
{
    let rate = match sample_rate {
        Some(s) => s,
        None => 44100,
    };
    let count: usize = match channel_count {
        Some(c) => c,
        None => 2,
    };
    if count > 65535 {
        Err(DecodeError::TooManyChannels(count))
    } else {
        Ok((rate, count as u16))
    }
}

/// What the demuxer gave when asked for the next packet.
pub enum PacketRead {
    /// A packet of the given track.
    Packet(u32),
    /// The stream ended.
    End,
    /// Reading hit the end of the file early.
    UnexpectedEof,
    /// The track list changed mid-stream.
    ResetRequired,
    /// Any other failure; its message.
    Failed(String),
}

/// What the decoding loop does next.
#[derive(Debug, PartialEq, Eq)]
pub enum DecodeStep {
    /// Decode this packet.
    Decode,
    /// Skip this packet (another track's).
    Skip,
    /// Stop: all samples so far are the result.
    Finish,
    /// Stop with this error.
    Fail(DecodeError),
}

/// The loop's reaction to a demuxer event while decoding track `track`:
/// packets of that track are decoded and others skipped; the end of the
/// stream (or of the file) and a changed track list finish decoding; any
/// other failure aborts with its message.
pub fn packet_step(read: PacketRead, track: u32) -> (r: DecodeStep)
    ensures
        match read {
            PacketRead::Packet(t) => if t == track {
                r == DecodeStep::Decode
            } else {
                r == DecodeStep::Skip
            },
            PacketRead::End | PacketRead::UnexpectedEof | PacketRead::ResetRequired => r
                == DecodeStep::Finish,
            PacketRead::Failed(m) => r == DecodeStep::Fail(DecodeError::Decode(m)),
        },
{
    match read {
        PacketRead::Packet(t) => if t == track {
            DecodeStep::Decode
        } else {
            DecodeStep::Skip
        },
        PacketRead::End => DecodeStep::Finish,
        PacketRead::UnexpectedEof => DecodeStep::Finish,
        PacketRead::ResetRequired => DecodeStep::Finish,
        PacketRead::Failed(m) => DecodeStep::Fail(DecodeError::Decode(m)),
    }
}

/// What decoding one packet gave.
pub enum PacketDecode {
    /// Samples were produced.
    Samples,
    /// The packet was corrupt; decoding can go on.
    Recoverable,
    /// The decoder failed; its message.
    Fatal(String),
}

/// Whether decoding goes on after one packet (`Ok(true)` when it produced
/// samples, `Ok(false)` for a skipped corrupt packet), or the error that
/// ends it.
pub fn decode_result(d: PacketDecode) -> (r: Result<bool, DecodeError>)
    ensures
        match d {
            PacketDecode::Samples => r == Ok::<bool, DecodeError>(true),
            PacketDecode::Recoverable => r == Ok::<bool, DecodeError>(false),
            PacketDecode::Fatal(m) => r == Err::<bool, DecodeError>(DecodeError::Decode(m)),
        },
{
    match d {
        PacketDecode::Samples => Ok(true),
        PacketDecode::Recoverable => Ok(false),
        PacketDecode::Fatal(m) => Err(DecodeError::Decode(m)),
    }
}

/// What we surface from an audio output device.
#[derive(Debug, Clone, PartialEq, Eq)]
pub struct OutputDeviceInfo {
    pub name: String,
    pub is_default: bool,
}

/// The output devices, in the host's order, each marked when its name is
/// the default device's name.
pub fn device_infos(names: Vec<String>, default_name: Option<String>) -> (r: Vec<OutputDeviceInfo>)
    ensures
        r@.len() == names@.len(),
        forall|i: int|
            0 <= i < r@.len() ==> (#[trigger] r@[i]).name@ == names@[i]@ && r@[i].is_default == (
            default_name is Some && default_name->0@ == names@[i]@),
{
    let mut r: Vec<OutputDeviceInfo> = Vec::new();
    let def: Option<Vec<char>> = match &default_name {
        Some(d) => Some(chars_of(d.as_str())),
        None => None,
    };
    let mut i: usize = 0;
    while i < names.len()
        invariant
            i <= names.len(),
            r@.len() == i,
            match def {
                Some(d) => default_name is Some && d@ == default_name->0@,
                None => default_name is None,
            },
            forall|k: int|
                0 <= k < i ==> (#[trigger] r@[k]).name@ == names@[k]@ && r@[k].is_default == (
                default_name is Some && default_name->0@ == names@[k]@),
        decreases names.len() - i,
    {
        let n = names[i].clone();
        let is_default = match &def {
            Some(d) => vec_eq(&chars_of(n.as_str()), d),
            None => false,
        };
        r.push(OutputDeviceInfo { name: n, is_default });
        i += 1;
    }
    r
}

/// The playlist exposed for reads: the tracks in order plus which one is
/// the playhead (`None` when nothing is selected).
#[derive(Debug, Clone, PartialEq, Eq)]
pub struct QueueView {
    pub tracks: Vec<String>,
    pub playhead: Option<usize>,
}

impl QueueView {
    /// The playhead points into the list (or there is none).
    pub open spec fn wf(&self) -> bool {
        self.playhead matches Some(p) ==> p < self.tracks@.len()
    }

    /// The view of a playlist of `tracks` with the given playhead; a
    /// playhead outside the list is dropped.
    pub fn new(tracks: Vec<String>, playhead: Option<usize>) -> (r: QueueView)
        ensures
            r.tracks@ == tracks@,
            r.wf(),
            (playhead matches Some(p) && p < tracks@.len()) ==> r.playhead == playhead,
            !(playhead matches Some(p) && p < tracks@.len()) ==> r.playhead is None,
    {
        let ph = match playhead {
            Some(p) => if p < tracks.len() {
                Some(p)
            } else {
                None
            },
            None => None,
        };
        QueueView { tracks, playhead: ph }
    }

    /// Number of tracks in the playlist.
    pub fn len(&self) -> (r: usize)
        ensures
            r == self.tracks@.len(),
    {
        self.tracks.len()
    }
}

impl Default for QueueView {
    fn default() -> (r: Self)
        ensures
            r.tracks@.len() == 0,
            r.playhead is None,
    {
        QueueView { tracks: Vec::new(), playhead: None }
    }
}

} // verus!
