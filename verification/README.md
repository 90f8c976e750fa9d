# kestrel

An offline renderer for MIDI files with enormous note counts: SFZ instruments,
up to millions of voices, a host backend and a compute backend.

`src/` is the library. It holds the engine's decisions, each proved against its
contract: which notes a saturated block starts, which voices give way, when a
note ends, what a controller changes, how files are read and written, what the
compute device allocates and dispatches. Floating-point values pass through it
as bit patterns; their arithmetic is the program's.

| Modules | What they hold |
|---|---|
| `config`, `limiter`, `brickwall` | settings, the final clamp, the lookahead limiter's memory |
| `gates`, `channels`, `gate_laws`, `chan_laws` | note-off and controller rows, tile by tile |
| `controls`, `roles`, `variants` | channel state, controller roles, copies of the params table |
| `voice`, `admission`, `select` | spawn commands, ranking and thinning of candidates |
| `bank`, `bank_laws` | regions, presets, layers and their preview |
| `driver`, `driver_laws` | a block from its events to its commands |
| `pool`, `pool_laws`, `cursor` | the host voice pool and one voice's way through a block |
| `gpu`, `passes`, `upload`, `shaders` | allocation, dispatches, uploads and shader text of the compute backend |
| `wav`, `wav_laws`, `midi`, `sfz`, `sfz_text`, `opcodes`, `sfz_laws` | file formats |
| `fixed`, `fbits`, `bytes`, `text`, `report` | numbers, bytes, text, the summary of a MIDI file |

Proof functions named `law_...` state what holds of several operations together.

`app/` is the command-line program: files and where they are looked for, tempo,
the order of a block's steps, the device, and floating point.
`tests/` runs the library on concrete values.
