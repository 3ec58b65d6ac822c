# tristim

Measures how a Wayland compositor and a display reproduce colour. A colorimeter
is placed on the screen, patches are shown in each colour format under test, and
what the instrument reads is recorded and held against what the format asks for.

The library in `src/` is verified with Verus. It holds the decisions and the data
formats:

- `driver` — the wire protocols of the Datacolor Spyder and X-Rite i1Display
  families, calibration memories, unlocking, adaptive measurement, and how far a
  reading can be trusted;
- `display` — pixel formats, colour descriptions, which of them a compositor can
  show, and the layout of a patch;
- `gather` — formats and patch sequences, the refinement of a measured gamut, and
  the course of a capture session;
- `capture` — the record of a session and its export to CGATS and CSV;
- `analyze` — what a trial is held to, and its scores;
- `cli` — arguments, panel sweeps, and the wording of results;
- `number`, `scale`, `quotient`, `text` — doubles as bit patterns, scaling and
  dividing with IEEE rounding, and text.

The program in `app/` talks to the USB bus and to Wayland, does the
floating-point colour arithmetic, and prints. It does what the library asks for
and reports back to it.

## Permissions

The colorimeter's USB device has to be writable for the user, for example by a
udev rule:

    SUBSYSTEM=="usb", ATTRS{idVendor}=="085c", TAG+="uaccess"
    SUBSYSTEM=="usb", ATTRS{idVendor}=="0765", ATTRS{idProduct}=="5020", TAG+="uaccess"

## Acknowledgement

The wire protocols of the instruments were worked out by Graeme Gill for
ArgyllCMS.
