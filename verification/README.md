# allcast

Screen sharing over RTP/UDP with GStreamer: a sender captures and encodes the
screen, a receiver idles until a stream arrives, decodes it and shows it, and
releases the display after silence. A small configuration window keeps the
role, quality preset, codec, peers and monitor in a TOML file.

The decisions and data handling are a Verus-verified library (`src/`):

- `config` — roles, codecs, quality presets, peers, the configuration and
  where its file lives.
- `settings` — what the configuration window checks and edits (validation,
  adding and removing peers, the monitor section).
- `platform` — per-OS encoder/decoder candidate lists, hardware first, and
  picking the first available element.
- `pipeline` — `host:port` destinations and the sender/receiver GStreamer
  pipeline descriptions and encoder/decoder properties.
- `control` — adaptive bitrate, capture recovery, keyframe-on-resume,
  receiver silence and the bus loops of both roles.
- `monitor` — parsing `kscreen-doctor -o` and `wlr-randr` output into monitor
  lists.
- `procfs` — CPU time, UDP receive backlog and buffer-overflow drops read
  from `/proc` text.
- `stats` — counters shared with a telemetry service.
- `detiler` — the NV12_COL128 (128-byte column tiled) to linear NV12
  detilers and the reference tiler, with the round trip proved.
- `text` — character-level helpers the parsers and string builders share.

`app/` is the executable around it: command line, files, the egui window,
running the desktop tools, sockets and GStreamer. It answers to `allcast`,
and, under those names, to `allcast-sender`, `allcast-receiver` and
`detile-bench`.
