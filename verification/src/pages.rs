//! The relay's two HTML pages.

use vstd::prelude::*;

verus! {

/// A tiny page that pulls /stream.mp4 through Media Source Extensions and
/// aggressively trims its own buffer, so that latency stays near the fragment
/// duration instead of the multi-second default of a plain video element.
pub const PLAYER_HTML: &'static str = r#"<!doctype html>
<html><head><meta charset="utf-8"><title>vicash fMP4</title>
<style>
  html,body{margin:0;background:#000;height:100%}
  video{display:block;width:100%;height:100%;object-fit:contain;background:#000}
</style></head>
<body>
<video id="v" autoplay muted playsinline></video>
<script>
const v = document.getElementById('v');
const ms = new MediaSource();
v.src = URL.createObjectURL(ms);
ms.addEventListener('sourceopen', async () => {
  const sb = ms.addSourceBuffer('video/mp4; codecs="avc1.42E01E,mp4a.40.2"');
  sb.mode = 'sequence';
  const res = await fetch('/stream.mp4');
  const reader = res.body.getReader();
  const wait = () => new Promise(r => sb.updating ? sb.addEventListener('updateend', r, {once:true}) : r());
  while (true) {
    const { done, value } = await reader.read();
    if (done) break;
    await wait();
    sb.appendBuffer(value);
    if (sb.buffered.length) {
      const start = sb.buffered.start(0);
      const end = sb.buffered.end(0);
      if (end - start > 3) {
        await wait();
        sb.remove(start, end - 1);
      }
    }
  }
});
setInterval(() => {
  if (v.buffered.length) {
    const live = v.buffered.end(v.buffered.length - 1);
    if (live - v.currentTime > 1.2) v.currentTime = live - 0.3;
  }
}, 400);
v.play().catch(() => {});
</script>
</body></html>"#;

/// The page with the MJPEG stream.
pub const INDEX_HTML: &'static str = r#"<!doctype html>
<html><head><meta charset="utf-8"><title>vicash</title>
<style>
  html,body{margin:0;background:#000;height:100%;font-family:system-ui,sans-serif;color:#9ad}
  img{display:block;width:100%;height:100%;object-fit:contain}
  .help{position:fixed;left:12px;bottom:12px;background:rgba(0,0,0,.55);
        padding:8px 12px;border-radius:6px;font-size:13px;line-height:1.5;
        pointer-events:none;backdrop-filter:blur(4px)}
  .help code{color:#cfe;background:rgba(255,255,255,.06);padding:1px 5px;border-radius:3px}
</style></head>
<body>
<img src="/stream" alt="capture">
<div class="help">
  vicash live stream<br>
  Direct MJPEG: <code>/stream</code><br>
  Single frame: <code>/snapshot.jpg</code>
</div>
</body></html>"#;

} // verus!
