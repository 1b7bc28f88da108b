# bevy_webcam_facial

A Bevy plugin that captures webcam frames, finds a face in them and sends
its smoothed coordinates to the game as events.

- `src/` is the verified library (Verus):
  - `filter.rs`: the window of the latest face samples (at most
    `length` of them, oldest first) and the choice of smoothing filter;
  - `frame.rs`: conversion of packed RGB frames to 8-bit grayscale;
  - `control.rs`: when the capture task is launched and stopped.
- `app/` is the plugin itself: Bevy systems and resources, camera access,
  face detection with `rustface`, and the floating-point filters and
  coordinate mapping.
- `tests/` exercises the library on concrete values.
