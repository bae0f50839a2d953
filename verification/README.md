# screenshot

Captures a bitmap image of a display.

- `src/` is the verified library: the `Screenshot` buffer with its accessors,
  the constructors that turn what a platform capture hands over (an X11 image,
  a CoreGraphics image, a GDI bitmap) into a screenshot, the byte-level bitmap
  transformations (`bitmap`: row reversal, red/blue exchange, alpha fix-up),
  and the choice of a display (`monitor`).
- `app/` holds the platform capture itself (Xlib, CoreGraphics, Win32 calls),
  which hands its raw results to the library.
- `tests/` exercises the library on concrete bitmaps.
