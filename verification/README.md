# rt

A ray tracer that renders built-in or file-described scenes to plain-text
PPM images.

- `src/` is the verified library (Verus):
  - `text`: white space, words, decimal numbers, and the syntax of
    floating-point literals;
  - `cli`: the command-line options (`--scene`, `--file`, `--width`,
    `--height`, `-t`/`--textures`, `-r`/`--reflections`, `-h`/`--help`) and
    their error messages;
  - `scene_file`: the `.rt` scene format, line by line, with the error that
    the first faulty line gives;
  - `ppm`: the PPM text of an image of 8-bit pixels;
  - `bands`: the split of image rows among render workers and the placement
    of finished rows;
  - `texture`: which colour a checkerboard cell shows.
- `app/` is the program: argument and file input, the floating-point
  geometry and shading (vectors, camera, shapes, materials, ray tracing),
  and the worker threads.
- `tests/` runs the library on concrete inputs.
