# depth_of_field

The depth-of-field (portrait blur) effect of a photo editor, split into a
verified core and a thin GPU driver.

`src/` (verified with Verus):

- `layout` — row layout of the Rgba16Float readback (rows padded to the copy
  alignment), removal of that padding, texture row sizes, workgroup counts.
- `half_float` — exact conversion of binary16 channels to 8-bit channels
  (clamp to [0, 1], scale by 255, round), and of whole Rgba16Float buffers.
- `resample` — nearest-neighbour resampling of the depth map.
- `depth_cache` — the digest of the geometry adjustments, the cache key of a
  depth map (BLAKE3 of the image path and that digest, in lowercase hex) and
  the lookup of the cached map.
- `encode` — PNG and base64 encoding of the result, and the result type.
- `sizing` — render sizes; `error` — the effect's errors and their messages.

`app/` holds the GPU work (wgpu), the floating-point steps and the driver
`apply_depth_blur`, which reaches the host application through the
`DepthOfFieldHost` trait.
