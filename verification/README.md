# stratos

Per-title video encoding: a service that probes an uploaded video, samples a
rate–quality curve with VMAF, keeps for each resolution tier the lowest bitrate
that reaches a quality target, encodes that ladder as HLS and reports the
savings against a fixed industry ladder.

- `src/` is the verified library (Verus): Pareto frontier and ladder selection
  (`optimizer`), the analysis grid (`pipeline`), the fixed-ladder comparison
  (`insights`), ffmpeg argument lists, progress parsing and the master
  playlist (`ffmpeg`), reading ffprobe reports (`probe`), job records and
  their transitions (`state`), upload names, ids and the job history (`api`).
  Real-valued quantities travel as order-preserving 64-bit codes, so every
  comparison the logic makes is exact.
- `app/` is the server around it: axum handlers, the shared job maps, the
  ffmpeg/ffprobe processes, files, threads, and the floating-point arithmetic
  (percentages, interpolation, delivery volumes).
- `tests/` runs the library on concrete inputs.
