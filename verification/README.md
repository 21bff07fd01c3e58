# face_auth

Face authentication for Linux with an infrared camera: a daemon looks for the enrolled face of a
user, a PAM module asks it, and a command and a graphical interface enroll, test and configure.

The decisions are made in a library (`src/`) whose functions carry contracts that Verus proves. The
programs around it (`app/`) open devices and sockets, run the neural networks, do the arithmetic on
floating-point numbers and draw on the screen.

## The library

| Module | What it decides |
|--------|-----------------|
| `wire`, `protocol`, `framing` | how numbers, texts and messages look as bytes, and how they are read back |
| `config`, `configure`, `settings_tab` | the settings, and how they are edited on the terminal and in the window |
| `geometry`, `liveness`, `inference`, `session` | what a frame means, and when a session succeeds, fails or is over |
| `pam`, `test_auth`, `local_auth` | what those who ask the daemon, or try without it, do about its answers |
| `enroll`, `enrollment` | taking pictures of a face, and the file with its embeddings |
| `camera`, `ir_emitter`, `models`, `model_store` | devices, their illumination, and the models' files and lifetime |
| `raster`, `quality`, `alignment`, `recognition`, `detection` | counting and comparing pixels, and sorting out detections |
| `shapes`, `canvas`, `gui` | what the debug window and the tabs show |
| `check_config`, `cli`, `install`, `platform` | the installation and its checks |
| `scalar`, `text`, `error` | numbers by their bit patterns, texts, and what went wrong |

A single-precision number is held as its bit pattern (`scalar::Scalar`), with the order that the
number has. Points in time are nanoseconds.

Encoding and decoding of single values goes through the `bincode` crate; what is believed of its
functions stands with the functions that call it, in `wire` and `enrollment`.

Public proof functions state what holds of several functions together: that what was written is
read back, that one session runs at a time, that a success needs evidence, that removing the module
from a PAM file undoes adding it, and the like.
