//! The command lines of the encoder subprocess.

use crate::prerelease::{is_number, lemma_position_is, position};
use crate::text::{
    append_decimal, decimal, decimal_text, digits_value, is_digit, lemma_decimal_value,
};
use vstd::prelude::*;
use vstd::string::*;

verus! {

/// The program that encodes.
pub const PROGRAM: &'static str = "ffmpeg";

/// The arguments as text.
pub open spec fn words(v: Seq<String>) -> Seq<Seq<char>> {
    Seq::new(v.len(), |i: int| v[i]@)
}

/// Appends one argument.
pub fn push_word(v: &mut Vec<String>, word: &str)
    ensures
        words(final(v)@) == words(old(v)@).push(word@),
{
    let mut s = String::new();
    s.append(word);
    assert(s@ =~= word@);
    v.push(s);
    assert(words(v@) =~= words(old(v)@).push(word@));
}

/// Appends a number as one argument.
fn push_number(v: &mut Vec<String>, n: u32)
    ensures
        words(final(v)@) == words(old(v)@).push(decimal(n as nat)),
{
    let s = decimal_text(n as u64);
    push_word(v, s.as_str());
}

/// A picture size as the encoder takes it.
pub open spec fn size_chars(w: u32, h: u32) -> Seq<char> {
    decimal(w as nat) + "x"@ + decimal(h as nat)
}

/// Appends a picture size as one argument.
fn push_size(v: &mut Vec<String>, w: u32, h: u32)
    ensures
        words(final(v)@) == words(old(v)@).push(size_chars(w, h)),
{
    let mut s = String::new();
    append_decimal(&mut s, w as u64);
    s.append("x");
    append_decimal(&mut s, h as u64);
    assert(s@ =~= size_chars(w, h));
    push_word(v, s.as_str());
}

/// Arguments that announce raw NV12 pictures at `from`.
pub open spec fn raw_video_words(w: u32, h: u32, fps: u32, from: Seq<char>) -> Seq<Seq<char>> {
    seq![
        "-f"@,
        "rawvideo"@,
        "-pix_fmt"@,
        "nv12"@,
        "-video_size"@,
        size_chars(w, h),
        "-framerate"@,
        decimal(fps as nat),
        "-i"@,
        from,
    ]
}

fn push_raw_video(v: &mut Vec<String>, w: u32, h: u32, fps: u32, from: &str)
    ensures
        words(final(v)@) == words(old(v)@) + raw_video_words(w, h, fps, from@),
{
    push_word(v, "-f");
    push_word(v, "rawvideo");
    push_word(v, "-pix_fmt");
    push_word(v, "nv12");
    push_word(v, "-video_size");
    push_size(v, w, h);
    push_word(v, "-framerate");
    push_number(v, fps);
    push_word(v, "-i");
    push_word(v, from);
    assert(words(v@) =~= words(old(v)@) + raw_video_words(w, h, fps, from@));
}

/// Arguments that choose the fastest H.264 encoding with the least delay.
pub open spec fn fast_h264_words() -> Seq<Seq<char>> {
    seq!["-c:v"@, "libx264"@, "-preset"@, "ultrafast"@, "-tune"@, "zerolatency"@]
}

fn push_fast_h264(v: &mut Vec<String>)
    ensures
        words(final(v)@) == words(old(v)@) + fast_h264_words(),
{
    push_word(v, "-c:v");
    push_word(v, "libx264");
    push_word(v, "-preset");
    push_word(v, "ultrafast");
    push_word(v, "-tune");
    push_word(v, "zerolatency");
    assert(words(v@) =~= words(old(v)@) + fast_h264_words());
}

/// Arguments of a recording that reads pictures from its standard input and
/// writes the file at `path`.
pub open spec fn recording_words(w: u32, h: u32, fps: u32, path: Seq<char>) -> Seq<Seq<char>> {
    seq!["-y"@] + raw_video_words(w, h, fps, "pipe:0"@) + fast_h264_words() + seq![
        "-pix_fmt"@,
        "yuv420p"@,
        "-movflags"@,
        "+faststart"@,
        path,
    ]
}

/// The arguments of a recording.
pub fn recording_args(w: u32, h: u32, fps: u32, path: &str) -> (r: Vec<String>)
    ensures
        words(r@) == recording_words(w, h, fps, path@),
{
    let mut v: Vec<String> = Vec::new();
    push_word(&mut v, "-y");
    push_raw_video(&mut v, w, h, fps, "pipe:0");
    push_fast_h264(&mut v);
    push_word(&mut v, "-pix_fmt");
    push_word(&mut v, "yuv420p");
    push_word(&mut v, "-movflags");
    push_word(&mut v, "+faststart");
    push_word(&mut v, path);
    assert(words(v@) =~= recording_words(w, h, fps, path@));
    v
}

/// A socket address as the encoder takes it.
pub open spec fn tcp_chars(addr: Seq<char>) -> Seq<char> {
    "tcp://"@ + addr
}

/// A socket address as the encoder takes it.
fn tcp_text(addr: &str) -> (r: String)
    ensures
        r@ == tcp_chars(addr@),
{
    let mut s = String::new();
    s.append("tcp://");
    s.append(addr);
    assert(s@ =~= tcp_chars(addr@));
    s
}

/// Arguments that announce raw sound at `from`: 32-bit floats, low byte first.
pub open spec fn raw_audio_words(rate: u32, channels: u32, from: Seq<char>) -> Seq<Seq<char>> {
    seq![
        "-f"@,
        "f32le"@,
        "-ar"@,
        decimal(rate as nat),
        "-ac"@,
        decimal(channels as nat),
        "-i"@,
        from,
    ]
}

fn push_raw_audio(v: &mut Vec<String>, rate: u32, channels: u32, from: &str)
    ensures
        words(final(v)@) == words(old(v)@) + raw_audio_words(rate, channels, from@),
{
    push_word(v, "-f");
    push_word(v, "f32le");
    push_word(v, "-ar");
    push_number(v, rate);
    push_word(v, "-ac");
    push_number(v, channels);
    push_word(v, "-i");
    push_word(v, from);
    assert(words(v@) =~= words(old(v)@) + raw_audio_words(rate, channels, from@));
}

/// How often a keyframe comes, in pictures: once a second.
pub open spec fn keyframe_distance(fps: u32) -> u32 {
    if fps < 1 {
        1
    } else {
        fps
    }
}

/// Arguments for stereo AAC and for a container that can be streamed: the
/// init box up front, a fragment at each keyframe and every half second, all
/// offsets relative to the fragment.
pub open spec fn stream_words(fps: u32) -> Seq<Seq<char>> {
    seq![
        "-g"@,
        decimal(keyframe_distance(fps) as nat),
        "-pix_fmt"@,
        "yuv420p"@,
        "-c:a"@,
        "aac"@,
        "-b:a"@,
        "128k"@,
        "-ac"@,
        "2"@,
        "-movflags"@,
        "+empty_moov+default_base_moof+frag_keyframe+separate_moof+omit_tfhd_offset"@,
        "-frag_duration"@,
        decimal(500000),
        "-f"@,
        "mp4"@,
        "pipe:1"@,
    ]
}

fn push_stream(v: &mut Vec<String>, fps: u32)
    ensures
        words(final(v)@) == words(old(v)@) + stream_words(fps),
{
    push_word(v, "-g");
    push_number(
        v,
        if fps < 1 {
            1
        } else {
            fps
        },
    );
    push_word(v, "-pix_fmt");
    push_word(v, "yuv420p");
    push_word(v, "-c:a");
    push_word(v, "aac");
    push_word(v, "-b:a");
    push_word(v, "128k");
    push_word(v, "-ac");
    push_word(v, "2");
    push_word(v, "-movflags");
    push_word(v, "+empty_moov+default_base_moof+frag_keyframe+separate_moof+omit_tfhd_offset");
    push_word(v, "-frag_duration");
    push_number(v, 500000);
    push_word(v, "-f");
    push_word(v, "mp4");
    push_word(v, "pipe:1");
    assert(words(v@) =~= words(old(v)@) + stream_words(fps));
}

/// What the relay's encoder is told.
pub struct RelayInput {
    /// Where it fetches the pictures: address and port.
    pub video_addr: String,
    /// Where it fetches the sound: address and port.
    pub audio_addr: String,
    pub width: u32,
    pub height: u32,
    pub fps: u32,
    pub sample_rate: u32,
    pub channels: u32,
}

/// Arguments of the relay's encoder, which writes the container to its
/// standard output.
pub open spec fn relay_words(i: RelayInput) -> Seq<Seq<char>> {
    seq!["-y"@, "-loglevel"@, "warning"@, "-fflags"@, "+nobuffer+genpts"@] + raw_video_words(
        i.width,
        i.height,
        i.fps,
        tcp_chars(i.video_addr@),
    ) + raw_audio_words(i.sample_rate, i.channels, tcp_chars(i.audio_addr@)) + fast_h264_words()
        + stream_words(i.fps)
}

/// The arguments of the relay's encoder.
pub fn relay_args(i: &RelayInput) -> (r: Vec<String>)
    ensures
        words(r@) == relay_words(*i),
{
    let video_url = tcp_text(i.video_addr.as_str());
    let audio_url = tcp_text(i.audio_addr.as_str());
    let mut v: Vec<String> = Vec::new();
    push_word(&mut v, "-y");
    push_word(&mut v, "-loglevel");
    push_word(&mut v, "warning");
    push_word(&mut v, "-fflags");
    push_word(&mut v, "+nobuffer+genpts");
    assert(words(v@) =~= seq!["-y"@, "-loglevel"@, "warning"@, "-fflags"@, "+nobuffer+genpts"@]);
    push_raw_video(&mut v, i.width, i.height, i.fps, video_url.as_str());
    push_raw_audio(&mut v, i.sample_rate, i.channels, audio_url.as_str());
    push_fast_h264(&mut v);
    push_stream(&mut v, i.fps);
    v
}

// ---------------------------------------------------------------------
// Laws
// ---------------------------------------------------------------------

/// Where `word` stands first among the arguments from `from` on; the end
/// where it does not.
pub open spec fn find_word(args: Seq<Seq<char>>, word: Seq<char>, from: int) -> int
    decreases args.len() - from,
{
    if from < 0 || from >= args.len() {
        args.len() as int
    } else if args[from] == word {
        from
    } else {
        find_word(args, word, from + 1)
    }
}

/// Where the options of input `k` start: behind the input before it.
pub open spec fn input_start(args: Seq<Seq<char>>, k: nat) -> int
    decreases k,
{
    if k == 0 {
        0
    } else {
        find_word(args, "-i"@, input_start(args, (k - 1) as nat)) + 2
    }
}

/// The value of an option of input `k`: it stands in front of the `-i` of that
/// input and behind the one before.
pub open spec fn input_option(args: Seq<Seq<char>>, k: nat, key: Seq<char>) -> Option<Seq<char>> {
    let p = find_word(args, key, input_start(args, k));
    if p + 1 < find_word(args, "-i"@, input_start(args, k)) {
        Some(args[p + 1])
    } else {
        None
    }
}

/// Where input `k` is read from.
pub open spec fn input_source(args: Seq<Seq<char>>, k: nat) -> Seq<char> {
    args[find_word(args, "-i"@, input_start(args, k)) + 1]
}

/// The value of an option of the output, which stands behind all `inputs`.
pub open spec fn output_option(args: Seq<Seq<char>>, inputs: nat, key: Seq<char>) -> Option<
    Seq<char>,
> {
    let p = find_word(args, key, input_start(args, inputs));
    if p + 1 < args.len() {
        Some(args[p + 1])
    } else {
        None
    }
}

/// The number that an option's value writes; none where it is no number.
pub open spec fn number_of(value: Option<Seq<char>>) -> Option<nat> {
    match value {
        Some(s) if is_number(s) => Some(digits_value(s)),
        _ => None,
    }
}

/// The two numbers on the sides of the `x` in a picture size.
pub open spec fn size_of_option(value: Option<Seq<char>>) -> Option<(nat, nat)> {
    match value {
        Some(s) => {
            let e = position(s, 'x');
            match (number_of(Some(s.take(e))), number_of(Some(s.skip(e + 1)))) {
                (Some(w), Some(h)) => Some((w, h)),
                _ => None,
            }
        },
        None => None,
    }
}

proof fn lemma_number_reads(n: nat)
    ensures
        number_of(Some(decimal(n))) == Some(n),
        decimal(n).len() > 0,
        is_digit(decimal(n)[0]),
{
    lemma_decimal_value(n);
    assert(is_digit(decimal(n)[0]));
}

proof fn lemma_size_reads(w: u32, h: u32)
    ensures
        size_of_option(Some(size_chars(w, h))) == Some((w as nat, h as nat)),
        size_chars(w, h).len() > 0,
        is_digit(size_chars(w, h)[0]),
{
    let (a, b) = (decimal(w as nat), decimal(h as nat));
    let s = size_chars(w, h);
    reveal_strlit("x");
    lemma_number_reads(w as nat);
    lemma_number_reads(h as nat);
    lemma_decimal_value(w as nat);
    assert(s[0] == a[0]);
    assert forall|i: int| 0 <= i < a.len() implies #[trigger] s[i] != 'x' by {
        assert(s[i] == a[i] && is_digit(a[i]));
    }
    lemma_position_is(s, 'x', a.len() as int);
    assert(s.take(a.len() as int) =~= a);
    assert(s.skip(a.len() + 1int) =~= b);
}

proof fn lemma_recording_words_at(w: u32, h: u32, fps: u32, path: Seq<char>)
    ensures
        ({
            let a = recording_words(w, h, fps, path);
            &&& a.len() == 22
            &&& a[0] == "-y"@
            &&& a[1] == "-f"@
            &&& a[2] == "rawvideo"@
            &&& a[3] == "-pix_fmt"@
            &&& a[4] == "nv12"@
            &&& a[5] == "-video_size"@
            &&& a[6] == size_chars(w, h)
            &&& a[7] == "-framerate"@
            &&& a[8] == decimal(fps as nat)
            &&& a[9] == "-i"@
            &&& a[10] == "pipe:0"@
            &&& a[11] == "-c:v"@
            &&& a[12] == "libx264"@
            &&& a[13] == "-preset"@
            &&& a[14] == "ultrafast"@
            &&& a[15] == "-tune"@
            &&& a[16] == "zerolatency"@
            &&& a[17] == "-pix_fmt"@
            &&& a[18] == "yuv420p"@
            &&& a[19] == "-movflags"@
            &&& a[20] == "+faststart"@
            &&& a[21] == path
        }),
{
}

proof fn lemma_relay_words_at(i: RelayInput)
    ensures
        ({
            let a = relay_words(i);
            &&& a.len() == 46
            &&& a[0] == "-y"@
            &&& a[1] == "-loglevel"@
            &&& a[2] == "warning"@
            &&& a[3] == "-fflags"@
            &&& a[4] == "+nobuffer+genpts"@
            &&& a[5] == "-f"@
            &&& a[6] == "rawvideo"@
            &&& a[7] == "-pix_fmt"@
            &&& a[8] == "nv12"@
            &&& a[9] == "-video_size"@
            &&& a[10] == size_chars(i.width, i.height)
            &&& a[11] == "-framerate"@
            &&& a[12] == decimal(i.fps as nat)
            &&& a[13] == "-i"@
            &&& a[14] == tcp_chars(i.video_addr@)
            &&& a[15] == "-f"@
            &&& a[16] == "f32le"@
            &&& a[17] == "-ar"@
            &&& a[18] == decimal(i.sample_rate as nat)
            &&& a[19] == "-ac"@
            &&& a[20] == decimal(i.channels as nat)
            &&& a[21] == "-i"@
            &&& a[22] == tcp_chars(i.audio_addr@)
            &&& a[23] == "-c:v"@
            &&& a[24] == "libx264"@
            &&& a[25] == "-preset"@
            &&& a[26] == "ultrafast"@
            &&& a[27] == "-tune"@
            &&& a[28] == "zerolatency"@
            &&& a[29] == "-g"@
            &&& a[30] == decimal(keyframe_distance(i.fps) as nat)
            &&& a[31] == "-pix_fmt"@
            &&& a[32] == "yuv420p"@
            &&& a[33] == "-c:a"@
            &&& a[34] == "aac"@
            &&& a[35] == "-b:a"@
            &&& a[36] == "128k"@
            &&& a[37] == "-ac"@
            &&& a[38] == "2"@
            &&& a[39] == "-movflags"@
            &&& a[40] == "+empty_moov+default_base_moof+frag_keyframe+separate_moof+omit_tfhd_offset"@
            &&& a[41] == "-frag_duration"@
            &&& a[42] == decimal(500000)
            &&& a[43] == "-f"@
            &&& a[44] == "mp4"@
            &&& a[45] == "pipe:1"@
        }),
{
}

/// What a recording was asked for reads back from its arguments: raw NV12
/// pictures of that size and rate on the standard input, H.264 in the file.
pub proof fn lemma_recording_options_read(w: u32, h: u32, fps: u32, path: Seq<char>)
    ensures
        ({
            let a = recording_words(w, h, fps, path);
            &&& size_of_option(input_option(a, 0, "-video_size"@)) == Some((w as nat, h as nat))
            &&& number_of(input_option(a, 0, "-framerate"@)) == Some(fps as nat)
            &&& input_option(a, 0, "-f"@) == Some("rawvideo"@)
            &&& input_option(a, 0, "-pix_fmt"@) == Some("nv12"@)
            &&& input_source(a, 0) == "pipe:0"@
            &&& output_option(a, 1, "-c:v"@) == Some("libx264"@)
            &&& output_option(a, 1, "-pix_fmt"@) == Some("yuv420p"@)
            &&& a.last() == path
        }),
{
    let a = recording_words(w, h, fps, path);
    reveal_strlit("+faststart");
    reveal_strlit("-c:v");
    reveal_strlit("-f");
    reveal_strlit("-framerate");
    reveal_strlit("-i");
    reveal_strlit("-movflags");
    reveal_strlit("-pix_fmt");
    reveal_strlit("-preset");
    reveal_strlit("-tune");
    reveal_strlit("-video_size");
    reveal_strlit("-y");
    reveal_strlit("libx264");
    reveal_strlit("nv12");
    reveal_strlit("pipe:0");
    reveal_strlit("rawvideo");
    reveal_strlit("ultrafast");
    reveal_strlit("yuv420p");
    reveal_strlit("zerolatency");
    assert("+faststart"@.len() == 10 && "+faststart"@[0] == '+' && "+faststart"@[1] == 'f'
        && "+faststart"@[2] == 'a');
    assert("-c:v"@.len() == 4 && "-c:v"@[0] == '-' && "-c:v"@[1] == 'c' && "-c:v"@[2] == ':');
    assert("-f"@.len() == 2 && "-f"@[0] == '-' && "-f"@[1] == 'f');
    assert("-framerate"@.len() == 10 && "-framerate"@[0] == '-' && "-framerate"@[1] == 'f'
        && "-framerate"@[2] == 'r');
    assert("-i"@.len() == 2 && "-i"@[0] == '-' && "-i"@[1] == 'i');
    assert("-movflags"@.len() == 9 && "-movflags"@[0] == '-' && "-movflags"@[1] == 'm'
        && "-movflags"@[2] == 'o');
    assert("-pix_fmt"@.len() == 8 && "-pix_fmt"@[0] == '-' && "-pix_fmt"@[1] == 'p'
        && "-pix_fmt"@[2] == 'i');
    assert("-preset"@.len() == 7 && "-preset"@[0] == '-' && "-preset"@[1] == 'p'
        && "-preset"@[2] == 'r');
    assert("-tune"@.len() == 5 && "-tune"@[0] == '-' && "-tune"@[1] == 't' && "-tune"@[2] == 'u');
    assert("-video_size"@.len() == 11 && "-video_size"@[0] == '-' && "-video_size"@[1] == 'v'
        && "-video_size"@[2] == 'i');
    assert("-y"@.len() == 2 && "-y"@[0] == '-' && "-y"@[1] == 'y');
    assert("libx264"@.len() == 7 && "libx264"@[0] == 'l' && "libx264"@[1] == 'i'
        && "libx264"@[2] == 'b');
    assert("nv12"@.len() == 4 && "nv12"@[0] == 'n' && "nv12"@[1] == 'v' && "nv12"@[2] == '1');
    assert("pipe:0"@.len() == 6 && "pipe:0"@[0] == 'p' && "pipe:0"@[1] == 'i'
        && "pipe:0"@[2] == 'p');
    assert("rawvideo"@.len() == 8 && "rawvideo"@[0] == 'r' && "rawvideo"@[1] == 'a'
        && "rawvideo"@[2] == 'w');
    assert("ultrafast"@.len() == 9 && "ultrafast"@[0] == 'u' && "ultrafast"@[1] == 'l'
        && "ultrafast"@[2] == 't');
    assert("yuv420p"@.len() == 7 && "yuv420p"@[0] == 'y' && "yuv420p"@[1] == 'u'
        && "yuv420p"@[2] == 'v');
    assert("zerolatency"@.len() == 11 && "zerolatency"@[0] == 'z' && "zerolatency"@[1] == 'e'
        && "zerolatency"@[2] == 'r');
    lemma_recording_words_at(w, h, fps, path);
    lemma_size_reads(w, h);
    lemma_number_reads(fps as nat);
    reveal_with_fuel(find_word, 11);
    reveal_with_fuel(input_start, 2);
    assert(find_word(a, "-i"@, 0) == 9);
}

/// What the relay was asked for reads back from the encoder's arguments: raw
/// NV12 pictures of that size and rate from the one address, sound of that
/// rate and with that many channels from the other, each option in front of
/// the input that it is about; and out comes fragmented MP4 with a keyframe a
/// second and stereo sound.
pub proof fn lemma_relay_options_read(i: RelayInput)
    ensures
        ({
            let a = relay_words(i);
            &&& size_of_option(input_option(a, 0, "-video_size"@)) == Some(
                (i.width as nat, i.height as nat),
            )
            &&& number_of(input_option(a, 0, "-framerate"@)) == Some(i.fps as nat)
            &&& input_option(a, 0, "-f"@) == Some("rawvideo"@)
            &&& input_option(a, 0, "-pix_fmt"@) == Some("nv12"@)
            &&& input_source(a, 0) == "tcp://"@ + i.video_addr@
            &&& number_of(input_option(a, 1, "-ar"@)) == Some(i.sample_rate as nat)
            &&& number_of(input_option(a, 1, "-ac"@)) == Some(i.channels as nat)
            &&& input_option(a, 1, "-f"@) == Some("f32le"@)
            &&& input_source(a, 1) == "tcp://"@ + i.audio_addr@
            &&& i.fps > 0 ==> number_of(output_option(a, 2, "-g"@)) == Some(i.fps as nat)
            &&& i.fps == 0 ==> number_of(output_option(a, 2, "-g"@)) == Some(1nat)
            &&& number_of(output_option(a, 2, "-frag_duration"@)) == Some(500000nat)
            &&& output_option(a, 2, "-ac"@) == Some("2"@)
            &&& output_option(a, 2, "-f"@) == Some("mp4"@)
            &&& a.last() == "pipe:1"@
        }),
{
    lemma_relay_inputs_at(i);
    lemma_relay_outputs_at(i);
    lemma_relay_words_at(i);
    lemma_size_reads(i.width, i.height);
    lemma_number_reads(i.fps as nat);
    lemma_number_reads(i.sample_rate as nat);
    lemma_number_reads(i.channels as nat);
    lemma_number_reads(keyframe_distance(i.fps) as nat);
    lemma_number_reads(500000);
}

proof fn lemma_relay_values_are_no_options(i: RelayInput)
    ensures
        size_chars(i.width, i.height)[0] != '-',
        decimal(i.fps as nat)[0] != '-',
        decimal(i.sample_rate as nat)[0] != '-',
        decimal(i.channels as nat)[0] != '-',
        decimal(keyframe_distance(i.fps) as nat)[0] != '-',
        decimal(500000)[0] != '-',
        tcp_chars(i.video_addr@)[0] != '-',
        tcp_chars(i.audio_addr@)[0] != '-',
{
    reveal_strlit("tcp://");
    lemma_size_reads(i.width, i.height);
    lemma_number_reads(i.fps as nat);
    lemma_number_reads(i.sample_rate as nat);
    lemma_number_reads(i.channels as nat);
    lemma_number_reads(keyframe_distance(i.fps) as nat);
    lemma_number_reads(500000);
    assert(tcp_chars(i.video_addr@)[0] == "tcp://"@[0]);
    assert(tcp_chars(i.audio_addr@)[0] == "tcp://"@[0]);
}

proof fn lemma_relay_inputs_at(i: RelayInput)
    ensures
        ({
            let a = relay_words(i);
            &&& find_word(a, "-i"@, 0) == 13
            &&& find_word(a, "-i"@, 15) == 21
            &&& input_start(a, 0) == 0
            &&& input_start(a, 1) == 15
            &&& input_start(a, 2) == 23
            &&& find_word(a, "-f"@, 0) == 5
            &&& find_word(a, "-pix_fmt"@, 0) == 7
            &&& find_word(a, "-video_size"@, 0) == 9
            &&& find_word(a, "-framerate"@, 0) == 11
            &&& find_word(a, "-f"@, 15) == 15
            &&& find_word(a, "-ar"@, 15) == 17
            &&& find_word(a, "-ac"@, 15) == 19
        }),
{
    let a = relay_words(i);
    reveal_strlit("+nobuffer+genpts");
    reveal_strlit("-ac");
    reveal_strlit("-ar");
    reveal_strlit("-f");
    reveal_strlit("-fflags");
    reveal_strlit("-framerate");
    reveal_strlit("-i");
    reveal_strlit("-loglevel");
    reveal_strlit("-pix_fmt");
    reveal_strlit("-video_size");
    reveal_strlit("-y");
    reveal_strlit("f32le");
    reveal_strlit("nv12");
    reveal_strlit("rawvideo");
    reveal_strlit("warning");
    assert("+nobuffer+genpts"@.len() == 16 && "+nobuffer+genpts"@[0] == '+'
        && "+nobuffer+genpts"@[1] == 'n' && "+nobuffer+genpts"@[2] == 'o');
    assert("-ac"@.len() == 3 && "-ac"@[0] == '-' && "-ac"@[1] == 'a' && "-ac"@[2] == 'c');
    assert("-ar"@.len() == 3 && "-ar"@[0] == '-' && "-ar"@[1] == 'a' && "-ar"@[2] == 'r');
    assert("-f"@.len() == 2 && "-f"@[0] == '-' && "-f"@[1] == 'f');
    assert("-fflags"@.len() == 7 && "-fflags"@[0] == '-' && "-fflags"@[1] == 'f'
        && "-fflags"@[2] == 'f');
    assert("-framerate"@.len() == 10 && "-framerate"@[0] == '-' && "-framerate"@[1] == 'f'
        && "-framerate"@[2] == 'r');
    assert("-i"@.len() == 2 && "-i"@[0] == '-' && "-i"@[1] == 'i');
    assert("-loglevel"@.len() == 9 && "-loglevel"@[0] == '-' && "-loglevel"@[1] == 'l'
        && "-loglevel"@[2] == 'o');
    assert("-pix_fmt"@.len() == 8 && "-pix_fmt"@[0] == '-' && "-pix_fmt"@[1] == 'p'
        && "-pix_fmt"@[2] == 'i');
    assert("-video_size"@.len() == 11 && "-video_size"@[0] == '-' && "-video_size"@[1] == 'v'
        && "-video_size"@[2] == 'i');
    assert("-y"@.len() == 2 && "-y"@[0] == '-' && "-y"@[1] == 'y');
    assert("f32le"@.len() == 5 && "f32le"@[0] == 'f' && "f32le"@[1] == '3' && "f32le"@[2] == '2');
    assert("nv12"@.len() == 4 && "nv12"@[0] == 'n' && "nv12"@[1] == 'v' && "nv12"@[2] == '1');
    assert("rawvideo"@.len() == 8 && "rawvideo"@[0] == 'r' && "rawvideo"@[1] == 'a'
        && "rawvideo"@[2] == 'w');
    assert("warning"@.len() == 7 && "warning"@[0] == 'w' && "warning"@[1] == 'a'
        && "warning"@[2] == 'r');
    lemma_relay_words_at(i);
    lemma_relay_values_are_no_options(i);
    reveal_with_fuel(find_word, 15);
    reveal_with_fuel(input_start, 3);
    assert(find_word(a, "-i"@, 0) == 13);
    assert(find_word(a, "-i"@, 15) == 21);
}

proof fn lemma_relay_outputs_at(i: RelayInput)
    ensures
        ({
            let a = relay_words(i);
            &&& find_word(a, "-g"@, 23) == 29
            &&& find_word(a, "-ac"@, 23) == 37
            &&& find_word(a, "-frag_duration"@, 23) == 41
            &&& find_word(a, "-f"@, 23) == 43
        }),
{
    let a = relay_words(i);
    reveal_strlit("+empty_moov+default_base_moof+frag_keyframe+separate_moof+omit_tfhd_offset");
    reveal_strlit("-ac");
    reveal_strlit("-b:a");
    reveal_strlit("-c:a");
    reveal_strlit("-c:v");
    reveal_strlit("-f");
    reveal_strlit("-frag_duration");
    reveal_strlit("-g");
    reveal_strlit("-movflags");
    reveal_strlit("-pix_fmt");
    reveal_strlit("-preset");
    reveal_strlit("-tune");
    reveal_strlit("128k");
    reveal_strlit("2");
    reveal_strlit("aac");
    reveal_strlit("libx264");
    reveal_strlit("mp4");
    reveal_strlit("pipe:1");
    reveal_strlit("ultrafast");
    reveal_strlit("yuv420p");
    reveal_strlit("zerolatency");
    assert("+empty_moov+default_base_moof+frag_keyframe+separate_moof+omit_tfhd_offset"@.len() == 74
        && "+empty_moov+default_base_moof+frag_keyframe+separate_moof+omit_tfhd_offset"@[0] == '+'
        && "+empty_moov+default_base_moof+frag_keyframe+separate_moof+omit_tfhd_offset"@[1] == 'e'
        && "+empty_moov+default_base_moof+frag_keyframe+separate_moof+omit_tfhd_offset"@[2] == 'm');
    assert("-ac"@.len() == 3 && "-ac"@[0] == '-' && "-ac"@[1] == 'a' && "-ac"@[2] == 'c');
    assert("-b:a"@.len() == 4 && "-b:a"@[0] == '-' && "-b:a"@[1] == 'b' && "-b:a"@[2] == ':');
    assert("-c:a"@.len() == 4 && "-c:a"@[0] == '-' && "-c:a"@[1] == 'c' && "-c:a"@[2] == ':');
    assert("-c:v"@.len() == 4 && "-c:v"@[0] == '-' && "-c:v"@[1] == 'c' && "-c:v"@[2] == ':');
    assert("-f"@.len() == 2 && "-f"@[0] == '-' && "-f"@[1] == 'f');
    assert("-frag_duration"@.len() == 14 && "-frag_duration"@[0] == '-'
        && "-frag_duration"@[1] == 'f' && "-frag_duration"@[2] == 'r');
    assert("-g"@.len() == 2 && "-g"@[0] == '-' && "-g"@[1] == 'g');
    assert("-movflags"@.len() == 9 && "-movflags"@[0] == '-' && "-movflags"@[1] == 'm'
        && "-movflags"@[2] == 'o');
    assert("-pix_fmt"@.len() == 8 && "-pix_fmt"@[0] == '-' && "-pix_fmt"@[1] == 'p'
        && "-pix_fmt"@[2] == 'i');
    assert("-preset"@.len() == 7 && "-preset"@[0] == '-' && "-preset"@[1] == 'p'
        && "-preset"@[2] == 'r');
    assert("-tune"@.len() == 5 && "-tune"@[0] == '-' && "-tune"@[1] == 't' && "-tune"@[2] == 'u');
    assert("128k"@.len() == 4 && "128k"@[0] == '1' && "128k"@[1] == '2' && "128k"@[2] == '8');
    assert("2"@.len() == 1 && "2"@[0] == '2');
    assert("aac"@.len() == 3 && "aac"@[0] == 'a' && "aac"@[1] == 'a' && "aac"@[2] == 'c');
    assert("libx264"@.len() == 7 && "libx264"@[0] == 'l' && "libx264"@[1] == 'i'
        && "libx264"@[2] == 'b');
    assert("mp4"@.len() == 3 && "mp4"@[0] == 'm' && "mp4"@[1] == 'p' && "mp4"@[2] == '4');
    assert("pipe:1"@.len() == 6 && "pipe:1"@[0] == 'p' && "pipe:1"@[1] == 'i'
        && "pipe:1"@[2] == 'p');
    assert("ultrafast"@.len() == 9 && "ultrafast"@[0] == 'u' && "ultrafast"@[1] == 'l'
        && "ultrafast"@[2] == 't');
    assert("yuv420p"@.len() == 7 && "yuv420p"@[0] == 'y' && "yuv420p"@[1] == 'u'
        && "yuv420p"@[2] == 'v');
    assert("zerolatency"@.len() == 11 && "zerolatency"@[0] == 'z' && "zerolatency"@[1] == 'e'
        && "zerolatency"@[2] == 'r');
    lemma_relay_words_at(i);
    lemma_relay_values_are_no_options(i);
    reveal_with_fuel(find_word, 22);
}

} // verus!
