# vicash

Low overhead capture card preview and LAN relay, with a verified core.

`src/` is the library, proved with Verus:

- `mpegts`, `crc`, `demux`: the MPEG-TS muxer for one H.264 stream, and what a
  receiver reads back from its packets
- `fmp4`, `fmp4_relay`, `samples`, `command`: the fragmented-MP4 relay, from the
  encoder's command line and its input to the segments that clients get
- `http`, `pages`, `relay`, `media`: routes, answers, MJPEG framing and the
  picture encoder of the HTTP relay
- `frame`, `color`: captured frames and NV12 to RGB
- `record`, `calendar`: screenshots, recordings and their file names
- `settings`, `config`, `launch`: settings, the configuration, and what a start
  of the program decides
- `updater`, `prerelease`, `perf`, `threadprio`: release checks and the
  precedence of versions, performance figures, thread priorities
- `bytes`, `text`, `shared`: byte, text and buffer helpers

`app/` is the program around it: arguments, files, sockets, the encoder
subprocess, threads. Access to capture and sound hardware comes from a platform
layer that is not part of this tree.

`tests/` runs the library.
