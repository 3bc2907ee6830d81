# winctrl_config

Configuration of WinWing URSA MINOR joysticks on Linux: what a joystick holds and
what is written to it, firmware images, remapping of buttons, response of axes,
effects of the motor, and profiles.

The library in `src/` is written in Verus. Its functions carry contracts, and Verus
proves that they keep them. Laws that span several functions stand beside them as
public proof functions whose names begin with `law_`: what the guard of writes
protects, that a backup comes before a write and that only the change is written,
that what is stored is read back, that a flash stops at the first missing answer,
and others.

The library opens no file and no device. `app/` does: it reads `/sys`, talks to
`/dev/hidraw*`, `/dev/input/*` and `/dev/uinput`, keeps the files of the user, and
draws the window (GTK 4 and libadwaita). Curves are computed there, in floating
point, and handed to the library.

- `src/` the verified library
- `tests/` its tests
- `app/` the program: `wwctrl` on the command line, and the window when it is called
  as `winctrl-gui`

"WINWING", "WINCTRL" and "URSA MINOR" are trademarks of their owners, named for
identification only. Writes to the memory of a joystick are made at the user's own
risk.
