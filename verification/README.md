# voyager_disco

A library, verified with Verus, for controlling the RGB LEDs of ZSA Voyager keyboards
over USB raw HID with the Oryx protocol, and the `voyager-disco` command around it.

- `src/` is the verified library: colour parsing, the device filter and keyboard
  selection, the Oryx frames and conversations (a session that decides, step by step,
  what to write and what to expect), the Omarchy theme accent and hook installation.
- `app/` is the command: argument handling, the HID device itself, files, udev and
  systemd.
- `tests/` runs the library on concrete values.
