# glm4_moe_lite

The GLM-4 MoE Lite language model, with its structure and its forward pass
verified by Verus.

- `src/` is the verified library. It completes a configuration (`config`), lays
  out the model that the settings call for (`model`, `decoder`, `attention`,
  `mlp`), and records a forward pass as a list of tensor operations (`tape`).
  The contracts say what every recorded result stands for, in which order the
  operations run, when a pass fails, and where the caches stand afterwards.
  `shapes` and `laws` prove what holds of all models and passes: a pass keeps the
  hidden states in shape, updates each cache once and moves it on by the length
  of the pass, and fails only where the caches do not match the layers.
  `meaning` gives the operations a meaning, position by position. From it follows
  that routed blocks treat each token by itself, and (`decoding`) that a sequence
  comes out the same in one pass and in several, through the caches.
- `tests/` runs the library, and plays recorded passes on small arrays.
- `app/` reads configurations and plays recorded passes on MLX arrays. It needs
  macOS with the MLX toolchain. The quantized modules, the caches and the weight
  files are those of the engine that runs the model (`Engine`).

Single precision numbers are carried by their bits; all floating point
computation happens where a tape is played.
