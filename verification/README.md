# clips

Instant replay for Windows: screen and sound of the last seconds are kept in
memory, encoded, and a hotkey writes them to disk as an MP4.

The library in `src/` holds what the program decides and computes, written in
Verus: every function states in `requires` and `ensures` what it does, and the
verifier proves it. The proof functions whose names begin with `law_` state what
holds of several functions together.

| Module | What it is about |
|---|---|
| `ring` | the ring of encoded packets, and cutting a clip out of it |
| `annexb`, `mux` | parameter sets, the order of packets in a file, file names |
| `supervisor` | when legs are built and restarted, when a clip is saved, what the user is told |
| `audio` | sample formats, mixing, and a timeline without gaps |
| `frames`, `convert`, `media` | pacing, the frame queue, picture sizes, format numbers |
| `encoder`, `dupl`, `d3d` | encoder set-up and events, desktop duplication, monitors |
| `config`, `tray` | the configuration file, the menu and what its entries do, the hotkey |
| `args`, `clitest`, `logging` | the command line, its tests, the log |
| `text`, `paths`, `local_time` | characters, numbers, UTF-16, path names, the wall clock |
| `seconds` | media times in seconds and in double precision |

`app/` is the program around it: windows, devices, files and threads. It performs
what the library decides and hands back what came of it.

Floating point (resampling a microphone, reading float samples) stays in `app/`.
