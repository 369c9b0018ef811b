# figif

GIF frame analysis and optimization, verified with Verus.

figif decodes a GIF into fully composited frames, hashes each frame perceptually
(dHash, pHash or blockhash), groups consecutive similar frames into segments (pauses
and motion), and lets you retime, collapse, remove or split segments before encoding
the result again.

## Layout

- `src/` — the verified library.
  - `types`, `segment`, `selector`: frames, segments and their operations; applying
    operations, dry runs, splitting, and the fluent selection API.
  - `decoders`, `encoders`, `quantize`: compositing decoded frames, palette
    quantization, delta frames, and writing GIFs (through the `gif` and `image` crates).
  - `hashing`, `hashers`, `traits`: perceptual hashes (through `img_hash`) and the
    hasher and encoder traits.
  - `analysis`, `pipeline`: segment detection and the `Figif` entry point, serial or
    with frames hashed on rayon's pool.
  - `cli`, `format`, `parse`: the command-line tool's settings, operation building,
    human-readable durations and sizes, and reading numbers.
  - `tui`, `editor`, `menu`, `timeline`: the interactive editor as a state machine
    (`EditorState::update` and `EditorState::handle_key`), the optimization menu's
    previews, and the timeline's labels.
- `tests/` — tests of the library.
- `app/` — the executable: the `info`, `analyze`, `optimize` and `completions`
  commands, and, when started with a file or nothing, the terminal editor, which runs
  the editor's state machine and carries out the effects it asks for.
