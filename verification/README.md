# meowmic

The verified core of MeowMic, a Windows desktop tool that suppresses noise on a
microphone in real time (RNNoise or DeepFilterNet3), mixes in background music captured
from another process, offers a listen-back monitor and a set of prank voice effects.

## Layout

- `src/` — the library, verified with Verus. Every decision the application takes that
  does not need floating point or the operating system is here, with its contract:
  - `pcm` — decoding device bytes into sample words and values, and laying sample words
    out into interleaved device buffers (output and monitor formats).
  - `backlog` — the background-music backlog between the capture thread and the
    processing thread (FIFO, compaction, a size cap).
  - `monitor` — which device may serve as monitor (USB identity check), its buffer
    size, the life cycle of its stream, and throttled failure reports.
  - `engine` — start and model-switch checks, frame/drop counters, the collapsed-model
    watch and the background-music capture loop's bookkeeping.
  - `explode` — effect selection, the noise generator and the echo delay line.
  - `denoise` — model selection, persistence of a model's normalisation state, the
    feature window and spectrum history of the deep filter.
  - `processes` — which audio sessions are offered as music sources and how their
    processes are named.
  - `settings`, `devices`, `logfile`, `text` — shortcuts and autostart, device-change
    detection, the diagnostic log, and string helpers.
- `tests/` — tests of the library on concrete values.
- `app/` — the Tauri shell: commands, tray, audio threads, WASAPI and Win32 calls, and
  the floating-point signal processing. The decisions that need neither floating point nor
  the operating system are the library's; the shell reads the clock for the log lines.
