# strix-lc-screen

Drives the pump screen of a ROG Strix LC IV / SLC IV cooler (USB `0B05:1DE7`) without the
official program.

- `src/` is a library verified with Verus. It holds the wire format, the session with the screen,
  the crop, what `ffmpeg` is asked for and how its answers are read, playback, the state of the
  window, settings, the tray and the commands.
- `app/` is the program around it: the HID device, files, processes, the window and the calls into
  Windows. It also keeps what works on floating-point numbers.
  On Windows the tray icon also takes the `tray-icon` crate.
- `tests/` runs the library.

| Module | Contents |
| --- | --- |
| `frame` | Frames: markers, length, checksum, escapes |
| `msg` | Text messages inside frames |
| `json` | What the library has from `serde_json` |
| `session` | Requests, replies, and pictures cut into reports |
| `media` | Crop, probing, `ffmpeg` arguments, the frames of a clip |
| `picture` | What the library has from `image` |
| `playback` | The screen worker: clips and jobs |
| `window` | The window's state and what happens to it |
| `status` | What the screen says about itself |
| `command` | The command line |
| `settings`, `tray`, `process` | Options and startup, the tray icon, the official program |
| `text` | Characters, numbers, lines, UTF-8 |

Functions that start with `law_` state what holds of the library as a whole.
