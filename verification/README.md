# customaio

Fan/pump profiles and an LCD temperature readout for NZXT Kraken coolers.

The library in `src/` holds the logic, verified with Verus: every public
function states its result in its `ensures`, and the laws of the library are
public proof functions.

| Module | What it covers |
| --- | --- |
| `curve` | The 40-point fan/pump curve built from a profile by interpolation. Laws: the curve never falls, ends at the channel maximum, and does not depend on the order of the points. |
| `kraken` | The cooler's HID messages and replies, status decoding, image checks and staging, bucket memory layout, the order of an image upload, and the choice of the cooler to open. |
| `sensors` | CPU vendor and family from CPUID registers, TjMax, the temperature arithmetic of the Intel and AMD registers, and the choice of GPU backend and adapter. |
| `config` | The configuration's plain types with their defaults, and `#RRGGBB`/`#RGB` colours (anything else is magenta). Law: a written colour reads back unchanged. |
| `frame` | Rotating a finished frame by 0, 90, 180 or 270 degrees. Law: rotating back undoes it. |
| `text` | Stripping ANSI colour codes, text comparison, decimal and hex. Laws: stripping leaves no escape, only leaves characters out, and is idempotent. |
| `console` | Command parsing, the banner and help text, profile choice, and the package's module filter. |
| `service` | The display service's per-frame decisions and its absolute schedule. |

`tests/` runs the library on concrete values.

`app/` is the program around the library: the command line, file and USB
I/O, the driver calls for the sensors, loading `config.toml`, and the
renderer, which works in floating point. It holds no rule of its own: where
it decides, it asks the library.
