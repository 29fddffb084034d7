# phi_synth

The wiring of a small modular synthesiser, written in Verus.

* `src/gadget.rs` — parameters, links between parameters, and the `Gadget`
  interface (lookup of a parameter by name, counting free parameters).
* `src/oscillators.rs`, `src/transformations.rs` — the gadgets and their
  parameters.
* `src/engine.rs` — the output gadget and the engine: resolving chains of
  links (with a check that rejects links to unknown names and circles of
  links), binding parameters to the slots of one sample buffer (one slot
  per free parameter), reading the output sample.
* `src/container.rs` — a gadget made of other gadgets.
* `src/editor.rs` — what one row of the parameter editor does to its
  parameter and to the selected link target.
* `src/laws.rs` — properties that span several functions.
* `app/` — the program: window, the editor's widgets, the per-sample
  floating-point work of each gadget, and sound output.

Sample values are carried as the bits of `f32` numbers (`u32`); the
library only moves them between parameters and buffer slots.
