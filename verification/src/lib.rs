//! The wiring of a modular synthesiser, verified: gadgets (oscillators,
//! transformations, the output) own named parameters; a parameter either
//! carries its own value or links, by name, to another parameter; the
//! engine binds every parameter to a slot of one sample buffer so that a
//! chain of links ends at the free parameter whose slot it shares.
pub mod container;
pub mod editor;
pub mod engine;
pub mod gadget;
pub mod laws;
pub mod oscillators;
pub mod transformations;
