# wave_engine

A library for training wave models: networks whose state is a set of harmonic bands, each with two
components, and whose layers integrate a Kerr-type ODE over the bands. Everything in `src/` is
verified with Verus.

## Numbers

The library holds no floating-point type. Its numeric code is generic over `arith::Arith<T>`, a
trait that gives the operations on numbers and promises nothing of them. What a function computes
is stated as a formula (`arith::Expr<T>`): `fits` says that a number is what the operations make of
a formula, in the order in which the formula has them. `app/floats.rs` implements the trait for
`f32` and `f64`.

`exact.rs` gives formulas a second meaning, in exact real arithmetic, with the rate at which they
change along a direction. Exponentials, logarithms, roots, sines, cosines, tangents and angles are
curves that a proof takes as given, with the rates that follow from them. The modules beside it
prove what holds of the formulas there:

- `split_exact.rs`, `ode_exact.rs`, `damping_exact.rs`, `linear_exact.rs`, `regulator_exact.rs`,
  `loss_exact.rs`, `cosine_exact.rs`, `decoder_exact.rs`: gradients are those of the derivative.
- `scheme_exact.rs`: integrations that are written differently end in the same numbers.
- `energy.rs`: bands lose energy to damping alone.
- `capture_exact.rs`: the captured shares of a derivative add up to it.
- `correlation_exact.rs`: correlations are symmetric and bounded.
- `range_exact.rs`: masks, the ends of stages and dispersions lie in their ranges.
- `sizing.rs`: the bands that a recommendation settles on are enough for the vocabulary.

## Layout

- Basics: `arith`, `seqs`.
- Model: `config`, `weights`, `wave_model`, `wave_decode`, `model`, `wave_init`, `tables`.
- Forward pass: `layers`, `attention`, `ode`, `kerr`, `kerr_capture`, `split_band`, `proj`,
  `model_forward`, `forward`, `decoder`, `passes`.
- Gradients: `ode_backward`, `backprop`, `backward`, `loss`, `phase_loss`, `wave_score`,
  `gradients`, `gradient_check`.
- Training: `sections`, `param_groups`, `optimizer`, `regulation`, `curriculum`, `train`,
  `train_loop`, `training_step`, `wave_training`, `run_setup`, `health`, `readings`, `estimates`,
  `recommend`, `sizing`.
- Files: `bytes`, `checkpoint`, `token_cache`, `gradient_file`, `json`, `text`, `parse`, `scale`.
- Analysis: `wave_analysis`, `sub_harmonic`, `ode_distortion`, `ode_monitor`, `coherence`,
  `phase_state`, `phase_report`, `relations`, `encode`, `wave_memory`, `parity`, `parity_cases`,
  `statistics`.
- Device: `gpu`, `gpu_ode`, `ffn`, `validation`, `monitor`.

`app/` is the ordinary Rust around the library: files, printing, the device, and the loops that
perform what the library decides. `tests/` runs the library on concrete values.
