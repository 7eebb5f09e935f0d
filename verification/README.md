# tinyrenderer

A small software renderer. The library (`src/`, verified with Verus) holds the
parts that decide things:

- `img`: a fixed-size RGB canvas (`Img`) with clipped writes, reads and a
  vertical flip, kept in an `image::ImageBuffer` (`image_buffer`); TGA
  textures are decoded and PNG files encoded from bytes (`codec`).
- `our_gl`: depths, fragments, the z-buffer and the depth test by which a
  fragment reaches the canvas; proofs that the nearest fragment wins.
- `render`: the rendering pass over all primitives.
- `model`, `pattern`, `text`: reading Wavefront OBJ lines (with the `regex`
  crate) into vertices, texture vertices, normals and faces, and resolving
  faces into triangles.

The program (`app/`) reads the model and texture files, reads coordinate
tokens as numbers, does the floating-point geometry (projection, normals,
barycentric coordinates, lighting) that turns faces into fragments, and
writes the PNG file.
