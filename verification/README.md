# lvp

Plays videos on a pixelflut server. The library (`src/`) holds what is
computed and proved with Verus:

- `command`: the binary `PB` and text `PX` pixel commands and the cache
  distance test;
- `frame`: frames, canvas dimensions, the SIZE handshake reply parser, and
  `Frame::fill_command_buffers`, which splits a frame's rows between streams
  and encodes every changed pixel, with the laws on caching and framing;
- `network`: the state kept between frames (canvas, cache, command buffers,
  refresh time) and the stream workers' step function;
- `decoder`: colour quantization;
- `client`: choosing a video from the bucket listing (never the static
  video) and reading its URL;
- `config`: the settings.

`app/` is the program around it: S3 access, video decoding, TCP streams and
the frame pacing loop.
