# videoeditor

A scripted short-video renderer: `script.md` in, a rendered vertical video
out. The library under `src/` is verified with Verus; `app/` is the
command-line program around it (file and network I/O, ffmpeg, headless
Chrome, the recorder's web server, and the floating-point timing).

## Library modules

- `script` — the `script.md` grammar: frontmatter metadata and `[…]`
  markers (a trailing ` # note` outside quotes is an annotation), scenes, data maps, narration
  clips; every timing it accepts parses as a float, and a data value is a
  number only when it parses to a finite one.
- `catalog` — template discovery across resolution layers (episode, packs,
  `$VIDEOEDITOR_PACK_PATH`, built-ins; most specific wins) and the
  `template-info` block.
- `render` — which scenes a pass renders, frame file names, and the data a
  web template receives.
- `media` — drawtext captions, concat lists, scene-cut timestamps, and the
  final audio mix graph (`media::assemble`).
- `record`, `recorder` — the narration recorder: routing, clip ids, take
  numbering that never overwrites a take, and the page's mode/key rules and
  the state a clip switch or a countdown resets.
- `genai` — still-image request rules for Grok and Imagen, aspect ratios,
  base64 handling, with the decoder's faults in its own words.
- `voice` — TTS/STT backend selection, which clips get synthesized (missing
  ones, and those whose text changed since they were voiced, recorded in
  `audio/clips/<id>.txt`), the Scribe upload body, whisper output reshaping.
- `chrome` — DevTools port file, tab URLs, percent-encoding, screenshot
  decoding, and the decision of each wait for Chrome.
- `text`, `path_name` — character-level primitives and `Path`-style file
  name arithmetic shared by the parsers.

## Layout

- `src/` — the verified library.
- `tests/` — tests of the library.
- `app/` — the `videoeditor` binary.
