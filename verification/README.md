# voxel_engine

A sparse voxel tree for a GPU ray tracer, and the loading of MagicaVoxel `.vox`
models that feeds it. The library is written in Verus: every function in `src/`
carries a contract that Verus proves, except three small wrappers around std
(`u64::count_ones`, `u32::ilog` and `String::from_utf8`), whose contracts restate
std's documentation and are assumed.

- `src/voxel_loader.rs`, `src/vox_format.rs`: the `.vox` reader (a pure function on
  bytes) and the typed views of its `SIZE`, `XYZI`, `RGBA` and `PACK` chunks.
- `src/voxel_data.rs`: a model's voxels, size and palette, laid out as grids of
  palette indices or colors.
- `src/svt.rs`, `src/svt_model.rs`, `src/svt_laws.rs`, `src/svt_count.rs`,
  `src/svt_shape.rs`, `src/svt_walk.rs`, `src/svt_values.rs`: the tree, its mathematical model, and the
  proofs that a built tree gives back every voxel of the model (also when walked by
  bit shifts and popcounts, as the renderer does), holds exactly the occupied voxels'
  values as its leaf data (in some order), and keeps every pointer within the pool or the leaf data.
- `src/model_data.rs`: what is uploaded to the GPU for a model.
- `src/controls.rs`, `src/render_settings.rs`, `src/sample_models.rs`: camera key
  bindings, render modes and timestamp queries, generated models (the ball, and the
  layout of any model whose filled cells are given).
- `app/`: a command-line program (the only user of the `glam` dependency) that reads a model from disk, builds its tree and
  prints what the renderer would upload; the floating-point camera math lives there.
- `tests/`: tests of the library on concrete models.
