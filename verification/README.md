# xai-dict

Voice dictation for the desktop: press a key, speak, and the text appears at the cursor.

The library under `src/` holds what the program decides and computes, with contracts that Verus
proves. The program under `app/` reads the microphone and the keyboard, runs the recognisers, talks
to the network and the desktop, and asks the library what to do.

| Module | What it holds |
| --- | --- |
| `text` | operations on text and their models |
| `wav`, `stream_vad` | levels and WAV files; the division of sound into phrases |
| `phrase` | likeness of texts, provisional text, the choice between two recognisers |
| `pipeline`, `session` | recordings, and a dictation from its start to its end |
| `daemon`, `hotkey` | states, commands and protocol of the daemon; its global hotkey |
| `osd`, `notify`, `output`, `command` | what is shown, and how text reaches the focused field |
| `config`, `settings` | settings, their defaults, and how one is set |
| `worker`, `local_qwen3`, `local_stream`, `local_whisper` | recognisers on this machine |
| `auth`, `proxy`, `stt`, `stt_rest`, `json` | the xAI API: token, proxy, streaming and upload |
| `capture`, `install_svc` | microphones; services and menu entries |

Two parts rest on other crates: JSON objects are read by `serde_json`, and addresses are read and
encoded by `url`. Levels that are fractions are kept as the bits of a 64-bit number, and loudness is
counted in thousandths; arithmetic on samples that needs floating point stands in `app/sound.rs`.
