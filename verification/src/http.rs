//! What the relay answers over HTTP: routing, refusals, stream heads and
//! MJPEG parts.

use crate::bytes::push_all;
use crate::pages::{INDEX_HTML, PLAYER_HTML};
use crate::text::{
    append_decimal, decimal, digits_value, is_digit, lemma_decimal_value, same_text,
};
use vstd::prelude::*;
use vstd::string::*;
use vstd::utf8::{encode_utf8, is_ascii_chars, is_ascii_chars_encode_utf8};

verus! {

/// What separates the pictures of the MJPEG stream.
pub const BOUNDARY: &'static str = "vcshareframe";

/// The content type of the pages.
pub const HTML_TYPE: &'static str = "text/html; charset=utf-8";

/// The content type of a single picture.
pub const JPEG_TYPE: &'static str = "image/jpeg";

/// Why a request gets no stream.
#[derive(Debug, Clone, Copy, PartialEq, Eq, Structural)]
pub enum Refusal {
    MethodNotAllowed,
    NotFound,
    /// The fMP4 relay is switched off.
    RelayDisabled,
    /// The fMP4 relay has no init segment yet.
    InitNotReady,
    /// No picture has been encoded yet.
    NoFrame,
}

/// The two fixed pages.
#[derive(Debug, Clone, Copy, PartialEq, Eq, Structural)]
pub enum Page {
    Index,
    Player,
}

/// What a request is for.
#[derive(Debug, Clone, Copy, PartialEq, Eq, Structural)]
pub enum Route {
    Page(Page),
    Mjpeg,
    Snapshot,
    /// H.264 over MPEG-TS, where there is an encoder for it.
    Ts,
    Fmp4,
    Refuse(Refusal),
}

/// The route of a request.
pub open spec fn route_of(is_get: bool, url: Seq<char>, ts_available: bool) -> Route {
    if !is_get {
        Route::Refuse(Refusal::MethodNotAllowed)
    } else if url == "/"@ || url == "/index.html"@ {
        Route::Page(Page::Index)
    } else if url == "/stream"@ || url == "/stream.mjpg"@ {
        Route::Mjpeg
    } else if url == "/snapshot.jpg"@ {
        Route::Snapshot
    } else if url == "/stream.ts"@ && ts_available {
        Route::Ts
    } else if url == "/stream.mp4"@ {
        Route::Fmp4
    } else if url == "/player"@ || url == "/player.html"@ {
        Route::Page(Page::Player)
    } else {
        Route::Refuse(Refusal::NotFound)
    }
}

/// Decides what a request is for.
pub fn route(is_get: bool, url: &str, ts_available: bool) -> (r: Route)
    ensures
        r == route_of(is_get, url@, ts_available),
{
    if !is_get {
        Route::Refuse(Refusal::MethodNotAllowed)
    } else if same_text(url, "/") || same_text(url, "/index.html") {
        Route::Page(Page::Index)
    } else if same_text(url, "/stream") || same_text(url, "/stream.mjpg") {
        Route::Mjpeg
    } else if same_text(url, "/snapshot.jpg") {
        Route::Snapshot
    } else if same_text(url, "/stream.ts") && ts_available {
        Route::Ts
    } else if same_text(url, "/stream.mp4") {
        Route::Fmp4
    } else if same_text(url, "/player") || same_text(url, "/player.html") {
        Route::Page(Page::Player)
    } else {
        Route::Refuse(Refusal::NotFound)
    }
}

impl Refusal {
    pub open spec fn status_code(self) -> u16 {
        match self {
            Refusal::MethodNotAllowed => 405,
            Refusal::NotFound => 404,
            Refusal::RelayDisabled => 503,
            Refusal::InitNotReady => 503,
            Refusal::NoFrame => 503,
        }
    }

    pub open spec fn body_text(self) -> Seq<char> {
        match self {
            Refusal::MethodNotAllowed => "method not allowed"@,
            Refusal::NotFound => "not found"@,
            Refusal::RelayDisabled =>
                "fMP4 relay not enabled (toggle 'Audio im Relay' in F1, needs ffmpeg.exe)"@,
            Refusal::InitNotReady =>
                "fMP4 init segment not ready - is ffmpeg still warming up?"@,
            Refusal::NoFrame => "no frame yet"@,
        }
    }

    /// The HTTP status of the refusal.
    pub fn status(&self) -> (r: u16)
        ensures
            r == self.status_code(),
    {
        match self {
            Refusal::MethodNotAllowed => 405,
            Refusal::NotFound => 404,
            Refusal::RelayDisabled => 503,
            Refusal::InitNotReady => 503,
            Refusal::NoFrame => 503,
        }
    }

    /// The body of the refusal.
    pub fn body(&self) -> (r: &'static str)
        ensures
            r@ == self.body_text(),
    {
        match self {
            Refusal::MethodNotAllowed => "method not allowed",
            Refusal::NotFound => "not found",
            Refusal::RelayDisabled =>
                "fMP4 relay not enabled (toggle 'Audio im Relay' in F1, needs ffmpeg.exe)",
            Refusal::InitNotReady => "fMP4 init segment not ready - is ffmpeg still warming up?",
            Refusal::NoFrame => "no frame yet",
        }
    }
}

impl Page {
    pub open spec fn html_text(self) -> Seq<char> {
        match self {
            Page::Index => INDEX_HTML@,
            Page::Player => PLAYER_HTML@,
        }
    }

    /// The page itself.
    pub fn html(&self) -> (r: &'static str)
        ensures
            r@ == self.html_text(),
    {
        match self {
            Page::Index => INDEX_HTML,
            Page::Player => PLAYER_HTML,
        }
    }
}

/// A request that is not a GET is answered 405, and a GET outside the known
/// paths 404, each with its fixed text; nothing else is refused at the door.
pub proof fn lemma_refused_requests(is_get: bool, url: Seq<char>, ts_available: bool)
    ensures
        match route_of(is_get, url, ts_available) {
            Route::Refuse(why) => {
                &&& why.status_code() == if is_get {
                    404u16
                } else {
                    405u16
                }
                &&& why.body_text() == if is_get {
                    "not found"@
                } else {
                    "method not allowed"@
                }
            },
            _ => is_get,
        },
{
}

/// The content types of the three streams.
#[derive(Debug, Clone, Copy, PartialEq, Eq, Structural)]
pub enum Stream {
    Mjpeg,
    Ts,
    Fmp4,
}

impl Stream {
    pub open spec fn content_type_text(self) -> Seq<char> {
        match self {
            Stream::Mjpeg => "multipart/x-mixed-replace; boundary="@ + BOUNDARY@,
            Stream::Ts => "video/mp2t"@,
            Stream::Fmp4 => "video/mp4"@,
        }
    }

    /// The response head in front of a stream.
    pub open spec fn head_text(self) -> Seq<char> {
        "HTTP/1.1 200 OK\r\nContent-Type: "@ + self.content_type_text()
            + "\r\nCache-Control: no-store, no-cache, must-revalidate, max-age=0\r\nPragma: no-cache\r\nConnection: close\r\n\r\n"@
    }

    /// The response head in front of a stream: never cached, closed at the
    /// end.
    pub fn head(&self) -> (r: String)
        ensures
            r@ == self.head_text(),
    {
        let mut s = String::new();
        s.append("HTTP/1.1 200 OK\r\nContent-Type: ");
        match self {
            Stream::Mjpeg => {
                s.append("multipart/x-mixed-replace; boundary=");
                s.append(BOUNDARY);
            },
            Stream::Ts => s.append("video/mp2t"),
            Stream::Fmp4 => s.append("video/mp4"),
        }
        s.append(
            "\r\nCache-Control: no-store, no-cache, must-revalidate, max-age=0\r\nPragma: no-cache\r\nConnection: close\r\n\r\n",
        );
        assert(s@ =~= self.head_text());
        s
    }
}

/// The head of one MJPEG part with `n` bytes of picture.
pub open spec fn part_head(n: nat) -> Seq<char> {
    "--"@ + BOUNDARY@ + "\r\nContent-Type: image/jpeg\r\nContent-Length: "@ + decimal(n)
        + "\r\n\r\n"@
}

/// One MJPEG part.
pub open spec fn part_bytes(jpeg: Seq<u8>) -> Seq<u8> {
    encode_utf8(part_head(jpeg.len())) + jpeg + encode_utf8("\r\n"@)
}

/// One picture as a part of the MJPEG stream: boundary, type and length, the
/// picture, a line break.
pub fn mjpeg_part(jpeg: &[u8]) -> (r: Vec<u8>)
    ensures
        r@ == part_bytes(jpeg@),
{
    let mut head = String::new();
    head.append("--");
    head.append(BOUNDARY);
    head.append("\r\nContent-Type: image/jpeg\r\nContent-Length: ");
    append_decimal(&mut head, jpeg.len() as u64);
    head.append("\r\n\r\n");
    assert(head@ =~= part_head(jpeg@.len()));
    let mut part: Vec<u8> = Vec::new();
    push_all(&mut part, head.as_str().as_bytes());
    push_all(&mut part, jpeg);
    push_all(&mut part, "\r\n".as_bytes());
    assert(part@ =~= part_bytes(jpeg@));
    part
}

/// What stands in front of the length in the head of a part.
pub open spec fn part_front() -> Seq<char> {
    "--"@ + BOUNDARY@ + "\r\nContent-Type: image/jpeg\r\nContent-Length: "@
}

/// How many decimal digits stand at the beginning.
pub open spec fn digit_run(s: Seq<u8>) -> nat
    decreases s.len(),
{
    if s.len() == 0 || !(48 <= s[0] <= 57) {
        0
    } else {
        1 + digit_run(s.skip(1))
    }
}

/// Characters of the ASCII range, one per byte.
pub open spec fn chars_of(s: Seq<u8>) -> Seq<char> {
    Seq::new(s.len(), |i: int| s[i] as char)
}

/// What a client reads off the front of the MJPEG stream: one picture, as
/// long as the head announces, and the rest of the stream. Nothing, where the
/// stream does not start with a whole part.
pub open spec fn read_part(s: Seq<u8>) -> Option<(Seq<u8>, Seq<u8>)> {
    let front = encode_utf8(part_front());
    let after = s.skip(front.len() as int);
    let n = digit_run(after) as int;
    let len = digits_value(chars_of(after.take(n))) as int;
    let body = after.skip(n);
    if !front.is_prefix_of(s) || n == 0 || body.len() < len + 6 {
        None
    } else if body.take(4) != encode_utf8("\r\n\r\n"@) || body.subrange(len + 4, len + 6)
        != encode_utf8("\r\n"@) {
        None
    } else {
        Some((body.subrange(4, len + 4), body.skip(len + 6)))
    }
}

/// The MJPEG stream of several pictures.
pub open spec fn mjpeg_stream(pictures: Seq<Seq<u8>>) -> Seq<u8>
    decreases pictures.len(),
{
    if pictures.len() == 0 {
        Seq::empty()
    } else {
        part_bytes(pictures[0]) + mjpeg_stream(pictures.skip(1))
    }
}

/// The pictures that a client reads off the front of a stream.
pub open spec fn read_pictures(s: Seq<u8>, n: nat) -> Seq<Seq<u8>>
    decreases n,
{
    match read_part(s) {
        Some((picture, rest)) if n > 0 => seq![picture] + read_pictures(rest, (n - 1) as nat),
        _ => Seq::empty(),
    }
}

proof fn lemma_digit_run(d: Seq<u8>, rest: Seq<u8>)
    requires
        forall|i: int| 0 <= i < d.len() ==> 48 <= #[trigger] d[i] <= 57,
        rest.len() > 0,
        !(48 <= rest[0] <= 57),
    ensures
        digit_run(d + rest) == d.len(),
    decreases d.len(),
{
    let s = d + rest;
    if d.len() > 0 {
        assert(s[0] == d[0]);
        assert(s.skip(1) =~= d.skip(1) + rest);
        lemma_digit_run(d.skip(1), rest);
    } else {
        assert(s =~= rest);
    }
}

proof fn lemma_head_is_ascii(n: nat)
    ensures
        is_ascii_chars(part_front()),
        is_ascii_chars(decimal(n)),
        is_ascii_chars("\r\n\r\n"@),
        is_ascii_chars("\r\n"@),
        "\r\n\r\n"@.len() == 4,
        "\r\n"@.len() == 2,
        "\r\n\r\n"@[0] == '\r',
        is_ascii_chars(part_head(n)),
        part_head(n) == part_front() + decimal(n) + "\r\n\r\n"@,
{
    reveal_strlit("--");
    reveal_strlit("vcshareframe");
    reveal_strlit("\r\nContent-Type: image/jpeg\r\nContent-Length: ");
    reveal_strlit("\r\n\r\n");
    reveal_strlit("\r\n");
    lemma_decimal_value(n);
    assert forall|i: int| 0 <= i < decimal(n).len() implies 0 <= #[trigger] decimal(n)[i] as u32
        <= 127 by {
        assert(is_digit(decimal(n)[i]));
    }
}

/// What is written comes back: a client that reads a part gets the picture,
/// whatever its bytes, and the stream goes on right behind it.
pub proof fn lemma_part_read(jpeg: Seq<u8>, rest: Seq<u8>)
    ensures
        read_part(part_bytes(jpeg) + rest) == Some((jpeg, rest)),
{
    let n = jpeg.len();
    lemma_head_is_ascii(n);
    lemma_decimal_value(n);
    let d = decimal(n);
    let (front, digits, gap, end) = (
        encode_utf8(part_front()),
        encode_utf8(d),
        encode_utf8("\r\n\r\n"@),
        encode_utf8("\r\n"@),
    );
    is_ascii_chars_encode_utf8(part_front());
    is_ascii_chars_encode_utf8(d);
    is_ascii_chars_encode_utf8("\r\n\r\n"@);
    is_ascii_chars_encode_utf8("\r\n"@);
    is_ascii_chars_encode_utf8(part_head(n));
    assert(encode_utf8(part_head(n)) =~= front + digits + gap);
    let s = part_bytes(jpeg) + rest;
    let body = gap + jpeg + end + rest;
    assert(s =~= front + (digits + body));
    assert(s.skip(front.len() as int) =~= digits + body);
    assert forall|i: int| 0 <= i < digits.len() implies 48 <= #[trigger] digits[i] <= 57 by {
        assert(is_digit(d[i]));
    }
    lemma_digit_run(digits, body);
    assert((digits + body).take(digits.len() as int) =~= digits);
    assert(chars_of(digits) =~= d);
    assert((digits + body).skip(digits.len() as int) =~= body);
    assert(body.take(4) =~= gap);
    assert(body.subrange(n + 4int, n + 6int) =~= end);
    assert(body.subrange(4, n + 4int) =~= jpeg);
    assert(body.skip(n + 6int) =~= rest);
    assert(front.is_prefix_of(s));
}

/// A client of the MJPEG stream gets the pictures that were sent, in order,
/// byte for byte.
pub proof fn lemma_stream_read(pictures: Seq<Seq<u8>>)
    ensures
        read_pictures(mjpeg_stream(pictures), pictures.len()) == pictures,
    decreases pictures.len(),
{
    if pictures.len() > 0 {
        lemma_part_read(pictures[0], mjpeg_stream(pictures.skip(1)));
        lemma_stream_read(pictures.skip(1));
        assert(seq![pictures[0]] + pictures.skip(1) =~= pictures);
    }
}

/// This machine's address on the local network, as text.
pub struct LocalIp {
    pub text: String,
    pub loopback: bool,
}

/// The URL that another machine uses. `addr` is the bound address and port as
/// text; `local` is this machine's own address where it is known.
pub open spec fn lan_url_text(
    addr: Seq<char>,
    port: u16,
    unspecified: bool,
    local: Option<LocalIp>,
) -> Seq<char> {
    if !unspecified {
        "http://"@ + addr
    } else {
        match local {
            Some(ip) if !ip.loopback => "http://"@ + ip.text@ + ":"@ + decimal(port as nat),
            _ => "http://localhost:"@ + decimal(port as nat),
        }
    }
}

/// The URL to point a second PC at: the bound address, or where that is
/// unspecified this machine's own; `localhost` where that is not known or
/// only reachable from here.
pub fn build_lan_url(addr: &str, port: u16, unspecified: bool, local: Option<LocalIp>) -> (r:
    String)
    ensures
        r@ == lan_url_text(addr@, port, unspecified, local),
{
    let mut s = String::new();
    if !unspecified {
        s.append("http://");
        s.append(addr);
        assert(s@ =~= lan_url_text(addr@, port, unspecified, local));
        return s;
    }
    match &local {
        Some(ip) if !ip.loopback => {
            s.append("http://");
            s.append(ip.text.as_str());
            s.append(":");
        },
        _ => {
            s.append("http://localhost:");
        },
    }
    append_decimal(&mut s, port as u64);
    assert(s@ =~= lan_url_text(addr@, port, unspecified, local));
    s
}

/// The URL that this machine itself uses.
pub fn local_url(port: u16) -> (r: String)
    ensures
        r@ == "http://127.0.0.1:"@ + decimal(port as nat),
{
    let mut s = String::new();
    s.append("http://127.0.0.1:");
    append_decimal(&mut s, port as u64);
    assert(s@ =~= "http://127.0.0.1:"@ + decimal(port as nat));
    s
}

/// What stands behind the last colon.
pub open spec fn after_colon(s: Seq<char>) -> Seq<char>
    decreases s.len(),
{
    if s.len() == 0 || s.last() == ':' {
        Seq::empty()
    } else {
        after_colon(s.drop_last()).push(s.last())
    }
}

proof fn lemma_after_colon(front: Seq<char>, d: Seq<char>)
    requires
        front.len() > 0 && front.last() == ':',
        forall|i: int| 0 <= i < d.len() ==> #[trigger] d[i] != ':',
    ensures
        after_colon(front + d) == d,
    decreases d.len(),
{
    if d.len() == 0 {
        assert(front + d =~= front);
        assert(after_colon(front) =~= d);
    } else {
        assert(d.last() != ':');
        assert((front + d).drop_last() =~= front + d.drop_last());
        lemma_after_colon(front, d.drop_last());
        assert(d.drop_last().push(d.last()) =~= d);
    }
}

/// The URL for other machines leads to the port that the relay listens on, at
/// this machine's address where it is known and can be reached from there.
pub proof fn lemma_url_leads_to_port(addr: Seq<char>, port: u16, local: Option<LocalIp>)
    ensures
        ({
            let url = lan_url_text(addr, port, true, local);
            let n = url.len() - after_colon(url).len();
            &&& after_colon(url).len() > 0
            &&& digits_value(after_colon(url)) == port
            &&& url.take(n) == match local {
                Some(ip) if !ip.loopback => "http://"@ + ip.text@ + ":"@,
                _ => "http://localhost:"@,
            }
        }),
        lan_url_text(addr, port, false, local) == "http://"@ + addr,
{
    let front = match local {
        Some(ip) if !ip.loopback => "http://"@ + ip.text@ + ":"@,
        _ => "http://localhost:"@,
    };
    let d = decimal(port as nat);
    reveal_strlit(":");
    reveal_strlit("http://localhost:");
    assert("http://localhost:"@.len() == 17 && "http://localhost:"@[16] == ':');
    assert(":"@.len() == 1 && ":"@[0] == ':');
    assert(front.last() == ':');
    lemma_decimal_value(port as nat);
    assert forall|i: int| 0 <= i < d.len() implies #[trigger] d[i] != ':' by {
        assert(is_digit(d[i]));
    }
    let url = lan_url_text(addr, port, true, local);
    assert(url =~= front + d);
    lemma_after_colon(front, d);
    assert(url.take(front.len() as int) =~= front);
}

/// The paths that the relay knows: each leads to what it names, every other
/// path is not found, and only a GET is served.
pub proof fn lemma_known_paths(url: Seq<char>, ts_available: bool)
    ensures
        route_of(true, "/"@, ts_available) == Route::Page(Page::Index),
        route_of(true, "/index.html"@, ts_available) == Route::Page(Page::Index),
        route_of(true, "/stream"@, ts_available) == Route::Mjpeg,
        route_of(true, "/stream.mjpg"@, ts_available) == Route::Mjpeg,
        route_of(true, "/snapshot.jpg"@, ts_available) == Route::Snapshot,
        route_of(true, "/stream.mp4"@, ts_available) == Route::Fmp4,
        route_of(true, "/player"@, ts_available) == Route::Page(Page::Player),
        route_of(true, "/player.html"@, ts_available) == Route::Page(Page::Player),
        route_of(true, "/stream.ts"@, true) == Route::Ts,
        route_of(true, "/stream.ts"@, false) == Route::Refuse(Refusal::NotFound),
        url != "/"@ && url != "/index.html"@ && url != "/stream"@ && url != "/stream.mjpg"@ && url
            != "/snapshot.jpg"@ && url != "/stream.mp4"@ && url != "/player"@ && url
            != "/player.html"@ && url != "/stream.ts"@ ==> route_of(true, url, ts_available)
            == Route::Refuse(Refusal::NotFound),
        route_of(false, url, ts_available) == Route::Refuse(Refusal::MethodNotAllowed),
{
    reveal_strlit("/");
    reveal_strlit("/index.html");
    reveal_strlit("/stream");
    reveal_strlit("/stream.mjpg");
    reveal_strlit("/snapshot.jpg");
    reveal_strlit("/stream.mp4");
    reveal_strlit("/player");
    reveal_strlit("/player.html");
    reveal_strlit("/stream.ts");
    assert("/"@.len() == 1);
    assert("/index.html"@.len() == 11 && "/index.html"@[1] == 'i');
    assert("/stream"@.len() == 7 && "/stream"@[1] == 's');
    assert("/stream.mjpg"@.len() == 12 && "/stream.mjpg"@[1] == 's');
    assert("/snapshot.jpg"@.len() == 13);
    assert("/stream.mp4"@.len() == 11 && "/stream.mp4"@[1] == 's');
    assert("/player"@.len() == 7 && "/player"@[1] == 'p');
    assert("/player.html"@.len() == 12 && "/player.html"@[1] == 'p');
    assert("/stream.ts"@.len() == 10);
}

} // verus!
