# dvs

The verified core of a video editor that is driven by operations: what it decides, computes,
reads and writes, with the contracts that Verus proves.

## Layout

`src/` is the library. Every function in it states what it returns.

| Part | Modules |
| --- | --- |
| Numbers and text | `rational`, `number`, `float_text`, `time`, `time_text`, `text`, `color`, `ident`, `paths` |
| Documents | `project`, `timeline`, `span`, `order`, `coverage` |
| Media | `toolchain`, `probe`, `decode`, `encode`, `proxy` |
| Interchange | `mlt*`, `xml*`, `edl`, `fcpxml`, `otio*`, `subtitle*`, `caption_laws`, `transfer*`, `interop`, `loss*`, `speed_laws`, `name_laws` |
| Inspection | `analyze`, `detect`, `diff`, `sheet`, `digest*`, `lint*`, `finding`, `fits` |
| Operations | `ops`, `args`, `json`, `asset_*`, `scene_*`, `split_ops`, `inspect_ops`, `transfer_ops`, `loop_ops` |
| Server | `tools`, `server`, `report` |

`app/` is ordinary Rust around it: processes, files, pixels in floating point, and the server's
transport. `tests/` runs the library.

## What is proved

Contracts speak of mathematical models: instants are rationals, a timeline is a sequence of
entries, a document is a tree of elements. The proof functions named `law_*` state what holds of
several functions together. Among them:

- a sequence that is exported as MLT is imported again with its rate, its size, and on each track
  every use of media where it stood (`mlt_round`);
- the clips that are read back agree one by one with the timeline on its frame grid (`mlt_agree`);
- every identifier of an MLT document is unique, and whatever is referred to stands in front
  (`mlt_unique`, `mlt_refs`); its playlists are as long as their tracks (`mlt_frames`), and its
  producers cover what is asked of them (`mlt_length`);
- every time of an OpenTimelineIO document is at the rate of the sequence, and what stands on each
  track fills the timeline (`otio_laws`);
- whatever a format leaves behind is told (`losses`, `loss_laws`);
- captions that are written as SubRip or WebVTT are read back (`subtitle_laws`), whatever their line
  endings and byte order mark (`caption_laws`);
- a file's URL decodes to its path, and a reel name stays as it is (`name_laws`);
- marking shot changes again changes nothing but ids (`scene_laws`);
- the entries of a track fill it, without holes and without overlaps (`timeline`);
- splitting a clip keeps what the timeline shows (`split_ops`);
- two pictures are compared in windows that leave out no pixel (`diff`);
- every tool leads back to its operation (`tools`).

## What is trusted

What other crates do is stated in a few declarations, each beside the call that it is about:
writing and parsing XML in `xml`, JSON in `json`, upper case in `edl`, identifiers in `ident`,
Base64 in `server`, and one string operation in `text`.
