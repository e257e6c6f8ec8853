# raytracer

A path tracer in the style of *Ray Tracing in One Weekend* and its sequel, with
showcase scenes (glass, black car paint, rippling water, textured planets, an .obj
car model).

The crate is split in two:

- `src/` is a Verus-verified library holding the tracer's integer logic:
  - `rtw_image`: the image store read by textures: pixel reads with edge clamping,
    building an image from decoded RGB8 bytes, decoding an image file's bytes with
    the `image` crate, and the order of the paths at which an image file is sought;
  - `gamma`: the exact sRGB-to-linear byte conversion, `255 * (b / 255)^2.2` rounded
    to the nearest integer, computed in integers, with its laws (black and white are
    fixed, no byte gets brighter, order is kept);
  - `texture`: the image texture's texel lookup and the checkerboard parity;
  - `perlin`: the permutation tables of Perlin noise (Fisher-Yates shuffles) and the
    lattice hash that indexes the random table;
  - `mesh`: grouping a triangulated .obj index list into faces.
- `app/` is the program around it: vectors, rays, shapes, materials, the camera and
  the scenes (all floating point), file and terminal I/O, and multi-threaded
  rendering. Run it with the scene's name, for example `final_scene` or `image13`.

`tests/` exercises the library, including a byte-by-byte comparison of the integer
sRGB conversion with the floating-point formula.
